//! Content-authenticated reading of SafeTensors checkpoints.
//!
//! Headers and exact file sizes are examined without looking at tensor
//! payloads. Unsupported or ambiguous encodings are refused rather than guessed.

use crate::error::{BrainError, BrainResult, ErrorView};
use crate::identity::{Sha256Digest, TensorId};
use crate::json::{lookup, parse_json, unsigned_of, Json, JsonTree};
use crate::order::{
    distinct_keys, has_name, insert_named, key_less, keys_are_totally_ordered, outcome,
    sort, sorted, sorting_keeps_distinctness, sorting_permutes_and_ascends, standing,
    strictly_ascending, strictly_sorted, take_one_more, views, views_push, KeyModel, Keyed, Named,
    NamedModel, Standing,
};
use crate::paths::{blobs_name, snapshots_name, FilePath, PathModel};
use crate::text::{is_padded_or_empty, joined, padded_or_empty, text_eq};
use vstd::prelude::*;

verus! {

broadcast use views_push;

/// The most files that a checkpoint may have.
pub const MAX_CHECKPOINT_FILES: usize = 16_384;

/// The longest header of a checkpoint file.
pub const MAX_HEADER_BYTES: u64 = 67_108_864;

/// The longest configuration or tokenizer file.
pub const MAX_AUXILIARY_BYTES: u64 = 268_435_456;

/// The most bytes that the files of a checkpoint may have together.
pub const MAX_CHECKPOINT_BYTES: u64 = 1_125_899_906_842_624;

/// The scalar type of a tensor that can carry a continuous change.
#[derive(Debug, Clone, Copy, PartialEq, Eq, Structural)]
pub enum FloatingScalarType {
    Float64,
    Float32,
    Bfloat16,
    Float16,
    Float8E4m3,
    Float8E5m2,
}

/// How the elements of a receiver tensor are stored.
#[derive(Debug, Clone, Copy, PartialEq, Eq, Structural)]
pub enum ReceiverScalarEncoding {
    Floating { scalar_type: FloatingScalarType },
}

impl View for ReceiverScalarEncoding {
    type V = ReceiverScalarEncoding;

    open spec fn view(&self) -> ReceiverScalarEncoding {
        *self
    }
}

/// How many bytes an element of the given type takes.
pub open spec fn dtype_width(dtype: Seq<char>) -> Option<u64> {
    if dtype == "BOOL"@ || dtype == "U8"@ || dtype == "I8"@ || dtype == "F8_E4M3"@ || dtype
        == "F8_E4M3FN"@ || dtype == "F8_E5M2"@ {
        Some(1)
    } else if dtype == "I16"@ || dtype == "U16"@ || dtype == "BF16"@ || dtype == "F16"@ {
        Some(2)
    } else if dtype == "I32"@ || dtype == "U32"@ || dtype == "F32"@ {
        Some(4)
    } else if dtype == "I64"@ || dtype == "U64"@ || dtype == "F64"@ {
        Some(8)
    } else {
        None
    }
}

/// How many bytes an element of the given type takes.
pub fn element_width_bytes(dtype: &str) -> (width: BrainResult<u64>)
    ensures
        outcome(width) == (match dtype_width(dtype@) {
            Some(width) => Ok(width),
            None => Err(ErrorView::Invalid("checkpoint_dtype_unsupported:"@ + dtype@)),
        }),
{
    if text_eq(dtype, "BOOL") || text_eq(dtype, "U8") || text_eq(dtype, "I8") || text_eq(
        dtype,
        "F8_E4M3",
    ) || text_eq(dtype, "F8_E4M3FN") || text_eq(dtype, "F8_E5M2") {
        Ok(1)
    } else if text_eq(dtype, "I16") || text_eq(dtype, "U16") || text_eq(dtype, "BF16") || text_eq(
        dtype,
        "F16",
    ) {
        Ok(2)
    } else if text_eq(dtype, "I32") || text_eq(dtype, "U32") || text_eq(dtype, "F32") {
        Ok(4)
    } else if text_eq(dtype, "I64") || text_eq(dtype, "U64") || text_eq(dtype, "F64") {
        Ok(8)
    } else {
        Err(BrainError::Invalid(joined("checkpoint_dtype_unsupported:", dtype)))
    }
}

/// The floating type of a continuous element type.
pub open spec fn dtype_floating(dtype: Seq<char>) -> Option<FloatingScalarType> {
    if dtype == "F64"@ {
        Some(FloatingScalarType::Float64)
    } else if dtype == "F32"@ {
        Some(FloatingScalarType::Float32)
    } else if dtype == "BF16"@ {
        Some(FloatingScalarType::Bfloat16)
    } else if dtype == "F16"@ {
        Some(FloatingScalarType::Float16)
    } else if dtype == "F8_E4M3"@ || dtype == "F8_E4M3FN"@ {
        Some(FloatingScalarType::Float8E4m3)
    } else if dtype == "F8_E5M2"@ {
        Some(FloatingScalarType::Float8E5m2)
    } else {
        None
    }
}

/// What materialising a tensor of the given type asks of its encoding.
pub open spec fn encoding_outcome(dtype: Seq<char>) -> Result<ReceiverScalarEncoding, ErrorView> {
    match dtype_floating(dtype) {
        Some(scalar_type) => Ok(ReceiverScalarEncoding::Floating { scalar_type }),
        None => Err(
            ErrorView::Invalid("materialization_tensor_dtype_not_continuous:"@ + dtype),
        ),
    }
}

/// The encoding under which a tensor of the given type can be materialised.
pub fn materialization_encoding(dtype: &str) -> (encoding: BrainResult<ReceiverScalarEncoding>)
    ensures
        outcome(encoding) == encoding_outcome(dtype@),
{
    let scalar_type = if text_eq(dtype, "F64") {
        FloatingScalarType::Float64
    } else if text_eq(dtype, "F32") {
        FloatingScalarType::Float32
    } else if text_eq(dtype, "BF16") {
        FloatingScalarType::Bfloat16
    } else if text_eq(dtype, "F16") {
        FloatingScalarType::Float16
    } else if text_eq(dtype, "F8_E4M3") || text_eq(dtype, "F8_E4M3FN") {
        FloatingScalarType::Float8E4m3
    } else if text_eq(dtype, "F8_E5M2") {
        FloatingScalarType::Float8E5m2
    } else {
        return Err(
            BrainError::Invalid(joined("materialization_tensor_dtype_not_continuous:", dtype)),
        );
    };
    Ok(ReceiverScalarEncoding::Floating { scalar_type })
}

/// Whatever can be materialised has a known element width.
pub proof fn materializable_types_have_a_width(dtype: Seq<char>)
    requires
        encoding_outcome(dtype) is Ok,
    ensures
        dtype_width(dtype) is Some,
{
}

/// The header of one tensor.
#[derive(Debug)]
pub struct TensorHeader {
    pub dtype: String,
    pub shape: Vec<usize>,
    /// The tensor occupies the bytes from `start` up to `end` of the data region.
    pub start: u64,
    pub end: u64,
}

/// The model of a [`TensorHeader`].
pub struct HeaderModel {
    pub dtype: Seq<char>,
    pub shape: Seq<usize>,
    pub start: u64,
    pub end: u64,
}

impl View for TensorHeader {
    type V = HeaderModel;

    open spec fn view(&self) -> HeaderModel {
        HeaderModel {
            dtype: self.dtype@,
            shape: self.shape@,
            start: self.start,
            end: self.end,
        }
    }
}

/// A copy of a shape.
pub fn shape_copy(shape: &Vec<usize>) -> (copy: Vec<usize>)
    ensures
        copy@ == shape@,
{
    let mut copy: Vec<usize> = Vec::new();
    for i in 0..shape.len()
        invariant
            copy@ == shape@.take(i as int),
    {
        copy.push(shape[i]);
        proof {
            take_one_more(shape@, i as int);
        }
    }
    assert(shape@.take(shape@.len() as int) == shape@);
    copy
}

impl TensorHeader {
    /// A copy of the header.
    pub fn duplicate(&self) -> (copy: TensorHeader)
        ensures
            copy@ == self@,
    {
        TensorHeader {
            dtype: self.dtype.clone(),
            shape: shape_copy(&self.shape),
            start: self.start,
            end: self.end,
        }
    }
}

/// The product of a shape, taken from the left, where no partial product
/// exceeds `limit`.
pub open spec fn bounded_product(shape: Seq<usize>, limit: int) -> Option<int>
    decreases shape.len(),
{
    if shape.len() == 0 {
        Some(1)
    } else {
        match bounded_product(shape.drop_last(), limit) {
            Some(product) => if product * shape.last() <= limit {
                Some(product * shape.last())
            } else {
                None
            },
            None => None,
        }
    }
}

proof fn lemma_product_nonnegative(shape: Seq<usize>, limit: int)
    ensures
        bounded_product(shape, limit) matches Some(product) ==> 0 <= product,
    decreases shape.len(),
{
    if shape.len() > 0 {
        lemma_product_nonnegative(shape.drop_last(), limit);
        if let Some(product) = bounded_product(shape.drop_last(), limit) {
            assert(0 <= product * shape.last()) by (nonlinear_arith)
                requires
                    0 <= product,
            ;
        }
    }
}

proof fn lemma_overflow_persists(shape: Seq<usize>, n: int, limit: int)
    requires
        0 <= n <= shape.len(),
        bounded_product(shape.take(n), limit) is None,
    ensures
        bounded_product(shape, limit) is None,
    decreases shape.len() - n,
{
    if n == shape.len() {
        assert(shape.take(n) == shape);
    } else {
        assert(shape.take(n + 1).drop_last() == shape.take(n));
        lemma_overflow_persists(shape, n + 1, limit);
    }
}

/// The number of elements of a shape, as a 64-bit count.
pub fn element_count(shape: &Vec<usize>) -> (count: Option<u64>)
    ensures
        match count {
            Some(n) => bounded_product(shape@, u64::MAX as int) == Some(n as int),
            None => bounded_product(shape@, u64::MAX as int) is None,
        },
{
    let mut count: u64 = 1;
    assert(shape@.take(0) == Seq::<usize>::empty());
    for i in 0..shape.len()
        invariant
            bounded_product(shape@.take(i as int), u64::MAX as int) == Some(count as int),
    {
        assert(shape@.take(i + 1).drop_last() == shape@.take(i as int));
        assert(shape@.take(i + 1).last() == shape@[i as int]);
        match count.checked_mul(shape[i] as u64) {
            Some(product) => {
                count = product;
            },
            None => {
                proof {
                    lemma_overflow_persists(shape@, i + 1, u64::MAX as int);
                }
                return None;
            },
        }
    }
    assert(shape@.take(shape@.len() as int) == shape@);
    Some(count)
}

/// The number of elements of a shape, as a machine-sized count.
pub fn parameter_count(shape: &Vec<usize>) -> (count: Option<usize>)
    ensures
        match count {
            Some(n) => bounded_product(shape@, usize::MAX as int) == Some(n as int),
            None => bounded_product(shape@, usize::MAX as int) is None,
        },
{
    let mut count: usize = 1;
    assert(shape@.take(0) == Seq::<usize>::empty());
    for i in 0..shape.len()
        invariant
            bounded_product(shape@.take(i as int), usize::MAX as int) == Some(count as int),
    {
        assert(shape@.take(i + 1).drop_last() == shape@.take(i as int));
        assert(shape@.take(i + 1).last() == shape@[i as int]);
        match count.checked_mul(shape[i]) {
            Some(product) => {
                count = product;
            },
            None => {
                proof {
                    lemma_overflow_persists(shape@, i + 1, usize::MAX as int);
                }
                return None;
            },
        }
    }
    assert(shape@.take(shape@.len() as int) == shape@);
    Some(count)
}

/// The unsigned integers of an array, where all of them fit a machine word.
pub open spec fn dimensions_of(items: Seq<JsonTree>) -> Option<Seq<usize>>
    decreases items.len(),
{
    if items.len() == 0 {
        Some(Seq::empty())
    } else {
        match (dimensions_of(items.drop_last()), unsigned_of(items.last())) {
            (Some(front), Some(last)) => if last <= usize::MAX {
                Some(front.push(last as usize))
            } else {
                None
            },
            _ => None,
        }
    }
}

/// A header read from its three fields.
pub open spec fn header_of_fields(
    dtype: Option<JsonTree>,
    shape: Option<JsonTree>,
    offsets: Option<JsonTree>,
) -> Option<HeaderModel> {
    match (dtype, shape, offsets) {
        (
            Some(JsonTree::Text(dtype)),
            Some(JsonTree::Array(shape)),
            Some(JsonTree::Array(offsets)),
        ) => {
            if dimensions_of(shape) is Some && offsets.len() == 2 && unsigned_of(offsets[0]) is Some
                && unsigned_of(offsets[1]) is Some {
                Some(
                    HeaderModel {
                        dtype,
                        shape: dimensions_of(shape)->0,
                        start: unsigned_of(offsets[0])->0,
                        end: unsigned_of(offsets[1])->0,
                    },
                )
            } else {
                None
            }
        },
        _ => None,
    }
}

/// The header that a document describes: an object with the members `dtype`,
/// `shape` and `data_offsets`, or an array of these three.
pub open spec fn header_of(tree: JsonTree) -> Option<HeaderModel> {
    match tree {
        JsonTree::Object(members) => header_of_fields(
            lookup(members, "dtype"@),
            lookup(members, "shape"@),
            lookup(members, "data_offsets"@),
        ),
        JsonTree::Array(items) => if items.len() == 3 {
            header_of_fields(Some(items[0]), Some(items[1]), Some(items[2]))
        } else {
            None
        },
        _ => None,
    }
}

/// The dimensions that an array of documents holds.
fn read_dimensions(items: &Vec<Json>) -> (dimensions: Option<Vec<usize>>)
    ensures
        match dimensions {
            Some(d) => dimensions_of(views(items@)) == Some(d@),
            None => dimensions_of(views(items@)) is None,
        },
{
    let ghost trees = views(items@);
    let mut dimensions: Vec<usize> = Vec::new();
    assert(trees.take(0) == Seq::<JsonTree>::empty());
    for i in 0..items.len()
        invariant
            trees == views(items@),
            dimensions_of(trees.take(i as int)) == Some(dimensions@),
    {
        assert(trees.take(i + 1).drop_last() == trees.take(i as int));
        assert(trees.take(i + 1).last() == items@[i as int]@);
        match items[i].as_unsigned() {
            Some(n) if n <= usize::MAX as u64 => {
                dimensions.push(n as usize);
            },
            _ => {
                proof {
                    lemma_bad_dimension_persists(trees, i + 1);
                }
                return None;
            },
        }
    }
    assert(trees.take(trees.len() as int) == trees);
    Some(dimensions)
}

proof fn lemma_bad_dimension_persists(items: Seq<JsonTree>, n: int)
    requires
        0 <= n <= items.len(),
        dimensions_of(items.take(n)) is None,
    ensures
        dimensions_of(items) is None,
    decreases items.len() - n,
{
    if n == items.len() {
        assert(items.take(n) == items);
    } else {
        assert(items.take(n + 1).drop_last() == items.take(n));
        lemma_bad_dimension_persists(items, n + 1);
    }
}

/// The model of an array document.
proof fn lemma_array_tree(items: Vec<Json>)
    ensures
        Json::Array(items)@ == JsonTree::Array(views(items@)),
{
    assert(Json::Array(items)@->Array_0 =~= views(items@));
}

/// Reads a header from its three fields.
fn read_header_fields(dtype: Option<&Json>, shape: Option<&Json>, offsets: Option<&Json>) -> (header:
    Option<TensorHeader>)
    ensures
        match header {
            Some(h) => header_of_fields(
                crate::json::optional_tree(dtype),
                crate::json::optional_tree(shape),
                crate::json::optional_tree(offsets),
            ) == Some(h@),
            None => header_of_fields(
                crate::json::optional_tree(dtype),
                crate::json::optional_tree(shape),
                crate::json::optional_tree(offsets),
            ) is None,
        },
{
    match (dtype, shape, offsets) {
        (Some(Json::Text(dtype)), Some(Json::Array(shape)), Some(Json::Array(offsets))) => {
            proof {
                lemma_array_tree(*shape);
                lemma_array_tree(*offsets);
            }
            let shape = match read_dimensions(shape) {
                Some(shape) => shape,
                None => return None,
            };
            if offsets.len() != 2 {
                return None;
            }
            assert(views(offsets@)[0] == offsets@[0]@ && views(offsets@)[1] == offsets@[1]@);
            match (offsets[0].as_unsigned(), offsets[1].as_unsigned()) {
                (Some(start), Some(end)) => Some(
                    TensorHeader { dtype: dtype.clone(), shape, start, end },
                ),
                _ => None,
            }
        },
        _ => None,
    }
}

/// Reads a tensor header from its document.
pub fn read_header(document: &Json) -> (header: Option<TensorHeader>)
    ensures
        match header {
            Some(h) => header_of(document@) == Some(h@),
            None => header_of(document@) is None,
        },
{
    match document {
        Json::Object(_) => read_header_fields(
            document.get("dtype"),
            document.get("shape"),
            document.get("data_offsets"),
        ),
        Json::Array(items) => {
            proof {
                lemma_array_tree(*items);
            }
            if items.len() == 3 {
                assert(views(items@)[0] == items@[0]@ && views(items@)[1] == items@[1]@ && views(
                    items@,
                )[2] == items@[2]@);
                read_header_fields(Some(&items[0]), Some(&items[1]), Some(&items[2]))
            } else {
                None
            }
        },
        _ => None,
    }
}

/// Whether a header has a usable name, a shape of positive dimensions, and an
/// ordered range inside the data region.
pub open spec fn header_is_placed(name: Seq<char>, header: HeaderModel, data_bytes: u64) -> bool {
    &&& !is_padded_or_empty(name)
    &&& header.shape.len() > 0
    &&& !header.shape.contains(0)
    &&& header.start <= header.end <= data_bytes
}

/// What one member of the header table is read as.
pub open spec fn entry_outcome(name: Seq<char>, tree: JsonTree, data_bytes: u64) -> Result<
    HeaderModel,
    ErrorView,
> {
    match header_of(tree) {
        None => Err(ErrorView::Json),
        Some(header) => match dtype_width(header.dtype) {
            None => Err(ErrorView::Invalid("checkpoint_dtype_unsupported:"@ + header.dtype)),
            Some(width) => match bounded_product(header.shape, u64::MAX as int) {
                None => Err(ErrorView::Invalid("checkpoint_tensor_shape_overflow"@)),
                Some(count) => if !header_is_placed(name, header, data_bytes) {
                    Err(ErrorView::Invalid("safetensors_tensor_header_invalid"@))
                } else if count * width > u64::MAX {
                    Err(ErrorView::Invalid("checkpoint_tensor_bytes_overflow"@))
                } else if header.end - header.start != count * width {
                    Err(ErrorView::Invalid("safetensors_tensor_header_invalid"@))
                } else {
                    Ok(header)
                },
            },
        },
    }
}

/// Whether some dimension is zero.
fn has_zero(shape: &Vec<usize>) -> (zero: bool)
    ensures
        zero == shape@.contains(0),
{
    for i in 0..shape.len()
        invariant
            forall|j: int| 0 <= j < i ==> shape@[j] != 0,
    {
        if shape[i] == 0 {
            return true;
        }
    }
    false
}

/// Reads and checks one member of the header table.
pub fn read_entry(name: &str, document: &Json, data_bytes: u64) -> (header: BrainResult<
    TensorHeader,
>)
    ensures
        outcome(header) == entry_outcome(name@, document@, data_bytes),
{
    let header = match read_header(document) {
        Some(header) => header,
        None => return Err(BrainError::Json),
    };
    let width: u64 = match element_width_bytes(header.dtype.as_str()) {
        Ok(width) => width,
        Err(error) => return Err(error),
    };
    let count: u64 = match element_count(&header.shape) {
        Some(count) => count,
        None => return Err(BrainError::invalid("checkpoint_tensor_shape_overflow")),
    };
    if padded_or_empty(name) || header.shape.len() == 0 || has_zero(&header.shape) || header.start
        > header.end || header.end > data_bytes {
        return Err(BrainError::invalid("safetensors_tensor_header_invalid"));
    }
    match count.checked_mul(width) {
        None => Err(BrainError::invalid("checkpoint_tensor_bytes_overflow")),
        Some(bytes) => if header.end - header.start != bytes {
            Err(BrainError::invalid("safetensors_tensor_header_invalid"))
        } else {
            Ok(header)
        },
    }
}

/// An accepted header describes at least one byte.
pub proof fn lemma_accepted_entry(name: Seq<char>, tree: JsonTree, data_bytes: u64)
    requires
        entry_outcome(name, tree, data_bytes) is Ok,
    ensures
        ({
            let header = entry_outcome(name, tree, data_bytes)->Ok_0;
            header.start < header.end <= data_bytes
        }),
{
    let header = entry_outcome(name, tree, data_bytes)->Ok_0;
    lemma_positive_product(header.shape, u64::MAX as int);
    let count = bounded_product(header.shape, u64::MAX as int)->0;
    let width = dtype_width(header.dtype)->0;
    assert(count * width >= 1) by (nonlinear_arith)
        requires
            count >= 1,
            width >= 1,
    ;
}

proof fn lemma_positive_product(shape: Seq<usize>, limit: int)
    requires
        !shape.contains(0),
    ensures
        bounded_product(shape, limit) matches Some(product) ==> product >= 1,
    decreases shape.len(),
{
    if shape.len() > 0 {
        assert forall|x: usize| shape.drop_last().contains(x) implies shape.contains(x) by {
            let i = choose|i: int| 0 <= i < shape.drop_last().len() && shape.drop_last()[i] == x;
            assert(shape[i] == x);
        }
        assert(shape.contains(shape.last())) by {
            assert(shape[shape.len() - 1] == shape.last());
        }
        lemma_positive_product(shape.drop_last(), limit);
        if let Some(product) = bounded_product(shape.drop_last(), limit) {
            assert(product * shape.last() >= 1) by (nonlinear_arith)
                requires
                    product >= 1,
                    shape.last() >= 1,
            ;
        }
    }
}

/// The tensors among the members of a header table, in order: every member but
/// `__metadata__`, or the first error.
pub open spec fn table_entries(members: Seq<(Seq<char>, JsonTree)>, data_bytes: u64) -> Result<
    Seq<NamedModel<HeaderModel>>,
    ErrorView,
>
    decreases members.len(),
{
    if members.len() == 0 {
        Ok(Seq::empty())
    } else {
        match table_entries(members.drop_last(), data_bytes) {
            Err(error) => Err(error),
            Ok(front) => {
                let (name, tree) = members.last();
                if name == "__metadata__"@ {
                    Ok(front)
                } else {
                    match entry_outcome(name, tree, data_bytes) {
                        Err(error) => Err(error),
                        Ok(header) => Ok(front.push(NamedModel { name, value: header })),
                    }
                }
            },
        }
    }
}

proof fn lemma_entry_error_persists(
    members: Seq<(Seq<char>, JsonTree)>,
    n: int,
    data_bytes: u64,
)
    requires
        0 <= n <= members.len(),
        table_entries(members.take(n), data_bytes) is Err,
    ensures
        table_entries(members, data_bytes) == table_entries(members.take(n), data_bytes),
    decreases members.len() - n,
{
    if n == members.len() {
        assert(members.take(n) == members);
    } else {
        assert(members.take(n + 1).drop_last() == members.take(n));
        lemma_entry_error_persists(members, n + 1, data_bytes);
    }
}

/// A range of bytes of the data region.
#[derive(Debug, Clone, Copy, PartialEq, Eq, Structural)]
pub struct ByteRange {
    pub start: u64,
    pub end: u64,
}

impl View for ByteRange {
    type V = ByteRange;

    open spec fn view(&self) -> ByteRange {
        *self
    }
}

impl KeyModel for ByteRange {
    open spec fn key(self) -> Seq<int> {
        seq![self.start as int]
    }
}

impl Keyed for ByteRange {
    fn stand(&self, other: &Self) -> (standing: Standing) {
        proof {
            let a = self@.key();
            let b = other@.key();
            assert(a[0] == self.start && b[0] == other.start);
            if self.start == other.start {
                assert(a =~= b);
                keys_are_totally_ordered(a, b);
            }
        }
        if self.start < other.start {
            Standing::Before
        } else if self.start == other.start {
            Standing::Same
        } else {
            Standing::After
        }
    }
}

/// The ranges of the tensors of a table.
pub open spec fn ranges_of(entries: Seq<NamedModel<HeaderModel>>) -> Seq<ByteRange> {
    Seq::new(
        entries.len(),
        |i: int| ByteRange { start: entries[i].value.start, end: entries[i].value.end },
    )
}

/// A range begins where its predecessor ends, the first one at zero.
pub open spec fn joins(ranges: Seq<ByteRange>, i: int) -> bool {
    ranges[i].start == (if i == 0 {
        0
    } else {
        ranges[i - 1].end
    })
}

/// Every range of a sorted sequence joins its predecessor.
pub open spec fn contiguous(ranges: Seq<ByteRange>) -> bool {
    forall|i: int| 0 <= i < ranges.len() ==> #[trigger] joins(ranges, i)
}

/// What the ranges of a table are found to be.
pub open spec fn layout_outcome(ranges: Seq<ByteRange>, data_bytes: u64) -> Result<(), ErrorView> {
    let in_order = sorted(ranges);
    if !contiguous(in_order) {
        Err(ErrorView::Invalid("safetensors_data_offsets_not_contiguous"@))
    } else if (if in_order.len() == 0 {
        0
    } else {
        in_order.last().end
    }) != data_bytes {
        Err(ErrorView::Invalid("safetensors_data_region_not_fully_described"@))
    } else {
        Ok(())
    }
}

/// Checks that the ranges follow each other without gap or overlap and fill the
/// data region.
pub fn check_layout(ranges: Vec<ByteRange>, data_bytes: u64) -> (checked: BrainResult<()>)
    ensures
        outcome(checked) == layout_outcome(ranges@, data_bytes),
{
    assert(views(ranges@) =~= ranges@);
    let in_order = sort(ranges);
    assert(views(in_order@) =~= in_order@);
    let mut expected: u64 = 0;
    for i in 0..in_order.len()
        invariant
            in_order@ == sorted(ranges@),
            forall|j: int| 0 <= j < i ==> #[trigger] joins(in_order@, j),
            expected == (if i == 0 {
                0
            } else {
                in_order@[i - 1].end
            }),
    {
        if in_order[i].start != expected {
            assert(!joins(in_order@, i as int));
            return Err(BrainError::invalid("safetensors_data_offsets_not_contiguous"));
        }
        assert(joins(in_order@, i as int));
        expected = in_order[i].end;
    }
    if expected != data_bytes {
        return Err(BrainError::invalid("safetensors_data_region_not_fully_described"));
    }
    Ok(())
}

/// What a parsed header table is read as: its tensors in ascending order of their
/// names, each name once.
pub open spec fn headers_outcome(tree: JsonTree, data_bytes: u64) -> Result<
    Seq<NamedModel<HeaderModel>>,
    ErrorView,
> {
    match tree {
        JsonTree::Object(members) => match table_entries(members, data_bytes) {
            Err(error) => Err(error),
            Ok(entries) => if entries.len() == 0 {
                Err(ErrorView::Invalid("safetensors_checkpoint_empty"@))
            } else if !distinct_keys(entries) {
                Err(ErrorView::Invalid("safetensors_tensor_name_repeated"@))
            } else {
                match layout_outcome(ranges_of(sorted(entries)), data_bytes) {
                    Err(error) => Err(error),
                    Ok(_) => Ok(sorted(entries)),
                }
            },
        },
        _ => Err(ErrorView::Invalid("safetensors_header_not_object"@)),
    }
}

/// The model of a list of named headers that may be an error.
pub open spec fn table_outcome(table: BrainResult<Vec<Named<TensorHeader>>>) -> Result<
    Seq<NamedModel<HeaderModel>>,
    ErrorView,
> {
    match table {
        Ok(entries) => Ok(views(entries@)),
        Err(error) => Err(error@),
    }
}

/// The ranges of the tensors of a table.
fn table_ranges(entries: &Vec<Named<TensorHeader>>) -> (ranges: Vec<ByteRange>)
    ensures
        ranges@ == ranges_of(views(entries@)),
{
    let ghost wanted = ranges_of(views(entries@));
    let mut ranges: Vec<ByteRange> = Vec::new();
    assert(wanted.take(0) =~= ranges@);
    for i in 0..entries.len()
        invariant
            wanted == ranges_of(views(entries@)),
            ranges@ == wanted.take(i as int),
    {
        ranges.push(ByteRange { start: entries[i].value.start, end: entries[i].value.end });
        proof {
            take_one_more(wanted, i as int);
        }
    }
    assert(wanted.take(wanted.len() as int) == wanted);
    ranges
}

/// Reads the header table of a checkpoint file whose data region holds
/// `data_bytes` bytes.
pub fn tensor_headers(document: &Json, data_bytes: u64) -> (table: BrainResult<
    Vec<Named<TensorHeader>>,
>)
    ensures
        table_outcome(table) == headers_outcome(document@, data_bytes),
        table matches Ok(entries) ==> strictly_ascending(views(entries@)),
{
    let members = match document {
        Json::Object(members) => members,
        _ => return Err(BrainError::invalid("safetensors_header_not_object")),
    };
    let ghost trees = document@->Object_0;
    let mut entries: Vec<Named<TensorHeader>> = Vec::new();
    assert(trees.take(0) == Seq::<(Seq<char>, JsonTree)>::empty());
    assert(views(entries@) =~= Seq::empty());
    for i in 0..members.len()
        invariant
            *document == Json::Object(*members),
            trees == document@->Object_0,
            document@ is Object,
            table_entries(trees.take(i as int), data_bytes) == Ok::<_, ErrorView>(views(entries@)),
    {
        assert(trees.take(i + 1).drop_last() == trees.take(i as int));
        assert(trees.take(i + 1).last() == (members@[i as int].0@, members@[i as int].1@));
        if !text_eq(members[i].0.as_str(), "__metadata__") {
            match read_entry(members[i].0.as_str(), &members[i].1, data_bytes) {
                Ok(header) => {
                    entries.push(Named { name: members[i].0.clone(), value: header });
                },
                Err(error) => {
                    proof {
                        lemma_entry_error_persists(trees, i + 1, data_bytes);
                    }
                    return Err(error);
                },
            }
        }
    }
    assert(trees.take(trees.len() as int) == trees);
    if entries.len() == 0 {
        return Err(BrainError::invalid("safetensors_checkpoint_empty"));
    }
    proof {
        sorting_permutes_and_ascends(views(entries@));
        sorting_keeps_distinctness(views(entries@));
    }
    let table = sort(entries);
    if !strictly_sorted(&table) {
        return Err(BrainError::invalid("safetensors_tensor_name_repeated"));
    }
    match check_layout(table_ranges(&table), data_bytes) {
        Ok(_) => Ok(table),
        Err(error) => Err(error),
    }
}

/// The number that bytes denote, the least significant byte first.
pub open spec fn little_endian(bytes: Seq<u8>) -> int
    decreases bytes.len(),
{
    if bytes.len() == 0 {
        0
    } else {
        bytes[0] + 256 * little_endian(bytes.skip(1))
    }
}

/// The length of the header table, as the first eight bytes of a file of
/// `file_size` bytes declare it.
pub open spec fn header_length_outcome(prefix: Seq<u8>, file_size: u64) -> Result<u64, ErrorView> {
    let length = little_endian(prefix);
    if length == 0 || length > MAX_HEADER_BYTES || length + 8 > file_size {
        Err(ErrorView::Invalid("safetensors_header_length_invalid"@))
    } else {
        Ok(length as u64)
    }
}

/// Reads the declared length of the header table.
pub fn header_length(prefix: &[u8], file_size: u64) -> (length: BrainResult<u64>)
    requires
        prefix@.len() == 8,
    ensures
        outcome(length) == header_length_outcome(prefix@, file_size),
{
    let mut value: u64 = 0;
    let mut i: usize = 8;
    assert(prefix@.skip(8) == Seq::<u8>::empty());
    let ghost mut room: int = 1;
    while i > 0
        invariant
            prefix@.len() == 8,
            i <= 8,
            value == little_endian(prefix@.skip(i as int)),
            0 <= value < room,
            i == 8 ==> room == 1,
            i == 7 ==> room == 0x100,
            i == 6 ==> room == 0x1_0000,
            i == 5 ==> room == 0x100_0000,
            i == 4 ==> room == 0x1_0000_0000,
            i == 3 ==> room == 0x100_0000_0000,
            i == 2 ==> room == 0x1_0000_0000_0000,
            i == 1 ==> room == 0x100_0000_0000_0000,
            i == 0 ==> room == 0x1_0000_0000_0000_0000,
        decreases i,
    {
        i = i - 1;
        assert(prefix@.skip(i as int).skip(1) == prefix@.skip(i + 1));
        assert(prefix@.skip(i as int)[0] == prefix@[i as int]);
        value = value * 256 + prefix[i] as u64;
        proof {
            room = room * 256;
        }
    }
    assert(prefix@.skip(0) == prefix@);
    if value == 0 || value > MAX_HEADER_BYTES || file_size < 8 || value > file_size - 8 {
        return Err(BrainError::invalid("safetensors_header_length_invalid"));
    }
    Ok(value)
}

/// What the header bytes of a file are read as.
pub open spec fn read_outcome(parsed: Option<JsonTree>, data_bytes: u64) -> Result<
    Seq<NamedModel<HeaderModel>>,
    ErrorView,
> {
    match parsed {
        None => Err(ErrorView::Json),
        Some(tree) => headers_outcome(tree, data_bytes),
    }
}

/// Reads the header table of a file of `file_size` bytes from its bytes.
pub fn read_headers(header: &[u8], file_size: u64) -> (table: BrainResult<
    Vec<Named<TensorHeader>>,
>)
    requires
        8 + header@.len() <= file_size,
    ensures
        table_outcome(table) == read_outcome(
            crate::json::json_text(header@),
            (file_size - 8 - header@.len()) as u64,
        ),
        table matches Ok(entries) ==> strictly_ascending(views(entries@)),
{
    let data_bytes: u64 = file_size - 8 - header.len() as u64;
    match parse_json(header) {
        None => Err(BrainError::Json),
        Some(document) => tensor_headers(&document, data_bytes),
    }
}


/// Every byte below `limit` lies in some range.
pub open spec fn covers(ranges: Seq<ByteRange>, limit: int) -> bool {
    forall|byte: int| 0 <= byte < limit ==> #[trigger] lies_in(ranges, byte)
}

/// Some range holds the byte.
pub open spec fn lies_in(ranges: Seq<ByteRange>, byte: int) -> bool {
    exists|i: int| 0 <= i < ranges.len() && (#[trigger] ranges[i]).start <= byte < ranges[i].end
}

/// No byte lies in two ranges, and none reaches beyond `limit`.
pub open spec fn disjoint_within(ranges: Seq<ByteRange>, limit: int) -> bool {
    &&& forall|i: int| 0 <= i < ranges.len() ==> (#[trigger] ranges[i]).end <= limit
    &&& forall|i: int, j: int|
        0 <= i < j < ranges.len() ==> (#[trigger] ranges[i]).end <= (#[trigger] ranges[j]).start
            || ranges[j].end <= ranges[i].start
}

proof fn lemma_contiguous_prefix(ranges: Seq<ByteRange>, n: int, byte: int)
    requires
        contiguous(ranges),
        0 < n <= ranges.len(),
        forall|i: int| 0 <= i < ranges.len() ==> (#[trigger] ranges[i]).start < ranges[i].end,
    ensures
        0 <= byte < ranges[n - 1].end ==> lies_in(ranges, byte),
        forall|i: int| 0 <= i < n ==> (#[trigger] ranges[i]).end <= ranges[n - 1].end,
        forall|i: int|
            0 <= i < n - 1 ==> (#[trigger] ranges[i]).end <= ranges[n - 1].start,
    decreases n,
{
    assert(joins(ranges, n - 1));
    assert(ranges[n - 1].start < ranges[n - 1].end);
    if n > 1 {
        lemma_contiguous_prefix(ranges, n - 1, byte);
    }
}

proof fn lemma_accepted_ranges_tile(ranges: Seq<ByteRange>, data_bytes: u64)
    requires
        forall|i: int| 0 <= i < ranges.len() ==> (#[trigger] ranges[i]).start < ranges[i].end,
        layout_outcome(ranges, data_bytes) is Ok,
    ensures
        covers(ranges, data_bytes as int),
        disjoint_within(ranges, data_bytes as int),
{
    broadcast use vstd::seq_lib::group_to_multiset_ensures;

    let in_order = sorted(ranges);
    if ranges.len() > 0 {
        sorting_permutes_and_ascends(ranges);
        assert forall|i: int| 0 <= i < in_order.len() implies ranges.contains(
            #[trigger] in_order[i],
        ) by {
            assert(in_order.contains(in_order[i]));
            assert(in_order.to_multiset().count(in_order[i]) > 0);
        }
        assert forall|i: int| 0 <= i < ranges.len() implies in_order.contains(#[trigger] ranges[i]) by {
            assert(ranges.contains(ranges[i]));
            assert(ranges.to_multiset().count(ranges[i]) > 0);
        }
        assert forall|i: int| 0 <= i < in_order.len() implies (#[trigger] in_order[i]).start
            < in_order[i].end by {
            let k = choose|k: int| 0 <= k < ranges.len() && ranges[k] == in_order[i];
            assert(ranges[k].start < ranges[k].end);
        }
        let n = in_order.len() as int;
        assert forall|byte: int| 0 <= byte < data_bytes implies #[trigger] lies_in(ranges, byte) by {
            lemma_contiguous_prefix(in_order, n, byte);
            let i = choose|i: int|
                0 <= i < in_order.len() && (#[trigger] in_order[i]).start <= byte < in_order[i].end;
            let k = choose|k: int| 0 <= k < ranges.len() && ranges[k] == in_order[i];
            assert(ranges[k].start <= byte < ranges[k].end);
        }
        lemma_contiguous_prefix(in_order, n, 0);
        assert forall|i: int| 0 <= i < ranges.len() implies (#[trigger] ranges[i]).end
            <= data_bytes by {
            let k = choose|k: int| 0 <= k < in_order.len() && in_order[k] == ranges[i];
            assert(in_order[k].end <= in_order[n - 1].end);
        }
        assert(distinct_keys(in_order)) by {
            assert forall|i: int, j: int| 0 <= i < j < in_order.len() implies (
            #[trigger] in_order[i]).key() != (#[trigger] in_order[j]).key() by {
                lemma_contiguous_prefix(in_order, j + 1, 0);
                assert(in_order[i].start < in_order[i].end <= in_order[j].start);
                assert(in_order[i].key()[0] != in_order[j].key()[0]);
            }
        }
        sorting_keeps_distinctness(ranges);
        assert forall|i: int, j: int| 0 <= i < j < ranges.len() implies (#[trigger] ranges[i]).end <= (
        #[trigger] ranges[j]).start || ranges[j].end <= ranges[i].start by {
            let a = choose|a: int| 0 <= a < in_order.len() && in_order[a] == ranges[i];
            let b = choose|b: int| 0 <= b < in_order.len() && in_order[b] == ranges[j];
            assert(ranges[i].key() != ranges[j].key());
            if a < b {
                lemma_contiguous_prefix(in_order, b + 1, 0);
                assert(in_order[a].end <= in_order[b].start);
            } else {
                assert(a != b);
                lemma_contiguous_prefix(in_order, a + 1, 0);
                assert(in_order[b].end <= in_order[a].start);
            }
        }
    } else {
        sorting_permutes_and_ascends(ranges);
    }
}

/// An accepted header table describes every byte of the data region exactly
/// once: the ranges of its tensors cover the region and do not overlap.
pub proof fn accepted_tables_tile_the_data_region(tree: JsonTree, data_bytes: u64)
    requires
        headers_outcome(tree, data_bytes) is Ok,
    ensures
        covers(ranges_of(headers_outcome(tree, data_bytes)->Ok_0), data_bytes as int),
        disjoint_within(ranges_of(headers_outcome(tree, data_bytes)->Ok_0), data_bytes as int),
{
    broadcast use vstd::seq_lib::group_to_multiset_ensures;

    let entries = headers_outcome(tree, data_bytes)->Ok_0;
    let ranges = ranges_of(entries);
    let given = table_entries(tree->Object_0, data_bytes)->Ok_0;
    lemma_entries_nonempty(tree->Object_0, data_bytes);
    sorting_permutes_and_ascends(given);
    assert forall|i: int| 0 <= i < entries.len() implies (#[trigger] entries[i]).value.start
        < entries[i].value.end by {
        assert(entries.contains(entries[i]));
        assert(entries.to_multiset().count(entries[i]) > 0);
        assert(given.contains(entries[i]));
    }
    lemma_accepted_ranges_tile(ranges, data_bytes);
}

/// An accepted header table lists every tensor of the document once, in ascending
/// order of the names, and never the metadata.
pub proof fn accepted_tables_are_in_order_of_the_names(tree: JsonTree, data_bytes: u64)
    requires
        headers_outcome(tree, data_bytes) is Ok,
    ensures
        ({
            let table = headers_outcome(tree, data_bytes)->Ok_0;
            let given = table_entries(tree->Object_0, data_bytes)->Ok_0;
            &&& strictly_ascending(table)
            &&& table.to_multiset() == given.to_multiset()
            &&& forall|i: int|
                0 <= i < table.len() ==> (#[trigger] table[i]).name != "__metadata__"@
        }),
{
    broadcast use vstd::seq_lib::group_to_multiset_ensures;

    let table = headers_outcome(tree, data_bytes)->Ok_0;
    let given = table_entries(tree->Object_0, data_bytes)->Ok_0;
    sorting_permutes_and_ascends(given);
    sorting_keeps_distinctness(given);
    assert forall|i: int, j: int| 0 <= i < j < table.len() implies key_less(
        (#[trigger] table[i]).key(),
        (#[trigger] table[j]).key(),
    ) by {
        keys_are_totally_ordered(table[i].key(), table[j].key());
    }
    lemma_no_metadata(tree->Object_0, data_bytes);
    assert forall|i: int| 0 <= i < table.len() implies (#[trigger] table[i]).name
        != "__metadata__"@ by {
        assert(table.contains(table[i]));
        assert(table.to_multiset().count(table[i]) > 0);
        assert(given.contains(table[i]));
    }
}

proof fn lemma_no_metadata(members: Seq<(Seq<char>, JsonTree)>, data_bytes: u64)
    requires
        table_entries(members, data_bytes) is Ok,
    ensures
        forall|i: int|
            0 <= i < table_entries(members, data_bytes)->Ok_0.len() ==> (
            #[trigger] table_entries(members, data_bytes)->Ok_0[i]).name != "__metadata__"@,
    decreases members.len(),
{
    if members.len() > 0 {
        lemma_no_metadata(members.drop_last(), data_bytes);
    }
}

proof fn lemma_entries_nonempty(members: Seq<(Seq<char>, JsonTree)>, data_bytes: u64)
    requires
        table_entries(members, data_bytes) is Ok,
    ensures
        ({
            let entries = table_entries(members, data_bytes)->Ok_0;
            forall|i: int|
                0 <= i < entries.len() ==> (#[trigger] entries[i]).value.start
                    < entries[i].value.end <= data_bytes
        }),
    decreases members.len(),
{
    if members.len() > 0 {
        lemma_entries_nonempty(members.drop_last(), data_bytes);
        let (name, tree) = members.last();
        if name != "__metadata__"@ {
            lemma_accepted_entry(name, tree, data_bytes);
        }
    }
}


/// What the file system says about a requested file.
#[derive(Debug)]
pub struct ResolvedTarget {
    /// The canonical form of the checkpoint root.
    pub canonical_root: FilePath,
    /// The canonical form of the requested file below that root.
    pub path: FilePath,
    pub is_file: bool,
    /// The canonical form of the directory that [`blobs_directory`] names.
    pub canonical_blobs: Option<FilePath>,
}

/// The model of a [`ResolvedTarget`].
pub struct TargetModel {
    pub canonical_root: PathModel,
    pub path: PathModel,
    pub is_file: bool,
    pub canonical_blobs: Option<PathModel>,
}

impl View for ResolvedTarget {
    type V = TargetModel;

    open spec fn view(&self) -> TargetModel {
        TargetModel {
            canonical_root: self.canonical_root@,
            path: self.path@,
            is_file: self.is_file,
            canonical_blobs: match self.canonical_blobs {
                Some(path) => Some(path@),
                None => None,
            },
        }
    }
}

/// The blob directory beside the `snapshots` directory that holds a root.
pub open spec fn blobs_beside(root: PathModel) -> Option<PathModel> {
    match root.parent() {
        None => None,
        Some(snapshots) => if snapshots.file_name() != Some(snapshots_name()) {
            None
        } else {
            match snapshots.parent() {
                None => None,
                Some(repository) => Some(repository.child(blobs_name())),
            }
        },
    }
}

/// The blob directory that a snapshot root may link into, if it is one.
pub fn blobs_directory(canonical_root: &FilePath) -> (blobs: Option<FilePath>)
    ensures
        match blobs {
            Some(path) => blobs_beside(canonical_root@) == Some(path@),
            None => blobs_beside(canonical_root@) is None,
        },
{
    let snapshots = match canonical_root.parent() {
        Some(path) => path,
        None => return None,
    };
    let wanted: Vec<u8> = vec![115, 110, 97, 112, 115, 104, 111, 116, 115];
    assert(wanted@ =~= snapshots_name());
    if !snapshots.has_file_name(&wanted) {
        return None;
    }
    match snapshots.parent() {
        Some(repository) => {
            let name: Vec<u8> = vec![98, 108, 111, 98, 115];
            assert(name@ =~= blobs_name());
            Some(repository.join_name(name))
        },
        None => None,
    }
}

/// A file may be read where it lies below the root, or, for a snapshot root,
/// below the blob directory of the same repository.
pub open spec fn target_allowed(
    root: PathModel,
    path: PathModel,
    canonical_blobs: Option<PathModel>,
) -> bool {
    ||| path.starts_with(root)
    ||| blobs_beside(root) is Some && canonical_blobs is Some && path.starts_with(
        canonical_blobs->0,
    )
}

/// Whether a canonical path may be read under a canonical root.
pub fn confined_file_target_allowed(
    canonical_root: &FilePath,
    path: &FilePath,
    canonical_blobs: &Option<FilePath>,
) -> (allowed: bool)
    ensures
        allowed == target_allowed(
            canonical_root@,
            path@,
            match canonical_blobs {
                Some(blobs) => Some(blobs@),
                None => None,
            },
        ),
{
    if path.starts_with(canonical_root) {
        return true;
    }
    if blobs_directory(canonical_root).is_none() {
        return false;
    }
    match canonical_blobs {
        Some(blobs) => path.starts_with(blobs),
        None => false,
    }
}

/// What a requested file is admitted as.
pub open spec fn confined_outcome(
    relative: PathModel,
    target: Result<TargetModel, ErrorView>,
) -> Result<PathModel, ErrorView> {
    if relative.absolute() || relative.ascends() {
        Err(ErrorView::Invalid("checkpoint_path_not_relative"@))
    } else {
        match target {
            Err(error) => Err(error),
            Ok(target) => if target.is_file && target_allowed(
                target.canonical_root,
                target.path,
                target.canonical_blobs,
            ) {
                Ok(target.path)
            } else {
                Err(ErrorView::Invalid("checkpoint_path_not_confined_file"@))
            },
        }
    }
}

/// Whether a requested path may be looked up at all.
pub fn requested_path_allowed(relative: &FilePath) -> (allowed: bool)
    ensures
        allowed == !(relative@.absolute() || relative@.ascends()),
{
    !(relative.is_absolute() || relative.has_parent_part())
}

/// Admits a requested file, given what the file system says about it.
pub fn confined(relative: &FilePath, target: BrainResult<ResolvedTarget>) -> (path: BrainResult<
    FilePath,
>)
    ensures
        outcome(path) == confined_outcome(relative@, outcome(target)),
{
    if !requested_path_allowed(relative) {
        return Err(BrainError::invalid("checkpoint_path_not_relative"));
    }
    match target {
        Err(error) => Err(error),
        Ok(target) => if target.is_file && confined_file_target_allowed(
            &target.canonical_root,
            &target.path,
            &target.canonical_blobs,
        ) {
            Ok(target.path)
        } else {
            Err(BrainError::invalid("checkpoint_path_not_confined_file"))
        },
    }
}

/// Nothing is admitted outside the root but blobs of a snapshot's own repository.
pub proof fn confinement_admits_only_the_root_and_local_blobs(
    relative: PathModel,
    target: TargetModel,
)
    requires
        confined_outcome(relative, Ok(target)) is Ok,
        !target.path.starts_with(target.canonical_root),
    ensures
        blobs_beside(target.canonical_root) is Some,
        target.canonical_blobs is Some,
        target.path.starts_with(target.canonical_blobs->0),
{
}

/// What digesting a file of the given length gives.
pub open spec fn digest_outcome(
    length: Result<u64, ErrorView>,
    maximum: u64,
    digest: Result<Seq<char>, ErrorView>,
) -> Result<Seq<char>, ErrorView> {
    match length {
        Err(error) => Err(error),
        Ok(length) => if length > maximum {
            Err(ErrorView::Invalid("checkpoint_file_too_large"@))
        } else {
            digest
        },
    }
}

/// The digest of a file, unless the file is too large to be digested.
pub fn digest_file(
    length: BrainResult<u64>,
    maximum: u64,
    digest: BrainResult<Sha256Digest>,
) -> (admitted: BrainResult<Sha256Digest>)
    ensures
        outcome(admitted) == digest_outcome(outcome(length), maximum, outcome(digest)),
{
    match length {
        Err(error) => Err(error),
        Ok(length) => if length > maximum {
            Err(BrainError::invalid("checkpoint_file_too_large"))
        } else {
            digest
        },
    }
}

/// A tensor of a checkpoint, with the outcome of reading its name as an identity.
#[derive(Debug)]
pub struct IdentifiedTensor {
    pub header: TensorHeader,
    pub tensor_id: BrainResult<TensorId>,
}

/// The model of an [`IdentifiedTensor`].
pub struct IdentifiedModel {
    pub header: HeaderModel,
    pub tensor_id: Result<Seq<char>, ErrorView>,
}

impl View for IdentifiedTensor {
    type V = IdentifiedModel;

    open spec fn view(&self) -> IdentifiedModel {
        IdentifiedModel { header: self.header@, tensor_id: outcome(self.tensor_id) }
    }
}

/// A requested file, with the outcome of reading its header table.
#[derive(Debug)]
pub struct CheckpointReading {
    pub path: FilePath,
    pub tensors: BrainResult<Vec<Named<IdentifiedTensor>>>,
}

/// The model of a [`CheckpointReading`].
pub struct ReadingModel {
    pub path: PathModel,
    pub tensors: Result<Seq<NamedModel<IdentifiedModel>>, ErrorView>,
}

impl View for CheckpointReading {
    type V = ReadingModel;

    open spec fn view(&self) -> ReadingModel {
        ReadingModel {
            path: self.path@,
            tensors: match self.tensors {
                Ok(tensors) => Ok(views(tensors@)),
                Err(error) => Err(error@),
            },
        }
    }
}

impl KeyModel for ReadingModel {
    open spec fn key(self) -> Seq<int> {
        self.path.key()
    }
}

impl Keyed for CheckpointReading {
    fn stand(&self, other: &Self) -> (standing: Standing) {
        self.path.stand(&other.path)
    }
}

/// One line of a checkpoint inventory.
#[derive(Debug)]
pub struct SafeTensorsTensorInventoryItem {
    pub tensor_id: TensorId,
    pub dtype: String,
    pub shape: Vec<usize>,
    pub element_count: u64,
    pub materializable: bool,
}

/// The model of a [`SafeTensorsTensorInventoryItem`].
pub struct ItemModel {
    pub tensor_id: Seq<char>,
    pub dtype: Seq<char>,
    pub shape: Seq<usize>,
    pub element_count: u64,
    pub materializable: bool,
}

impl View for SafeTensorsTensorInventoryItem {
    type V = ItemModel;

    open spec fn view(&self) -> ItemModel {
        ItemModel {
            tensor_id: self.tensor_id@,
            dtype: self.dtype@,
            shape: self.shape@,
            element_count: self.element_count,
            materializable: self.materializable,
        }
    }
}

/// Every tensor of a checkpoint.
#[derive(Debug)]
pub struct SafeTensorsCheckpointInventory {
    pub schema: String,
    pub tensors: Vec<SafeTensorsTensorInventoryItem>,
}

/// The model of a [`SafeTensorsCheckpointInventory`].
pub struct InventoryModel {
    pub schema: Seq<char>,
    pub tensors: Seq<ItemModel>,
}

impl View for SafeTensorsCheckpointInventory {
    type V = InventoryModel;

    open spec fn view(&self) -> InventoryModel {
        InventoryModel { schema: self.schema@, tensors: views(self.tensors@) }
    }
}

/// Whether an inventory already lists the given tensor.
pub open spec fn lists(items: Seq<ItemModel>, id: Seq<char>) -> bool {
    exists|i: int| 0 <= i < items.len() && (#[trigger] items[i]).tensor_id == id
}

/// The inventory with one more tensor.
pub open spec fn item_added(items: Seq<ItemModel>, tensor: IdentifiedModel) -> Result<
    Seq<ItemModel>,
    ErrorView,
> {
    match tensor.tensor_id {
        Err(error) => Err(error),
        Ok(id) => if lists(items, id) {
            Err(ErrorView::Invalid("checkpoint_duplicate_tensor"@))
        } else {
            match bounded_product(tensor.header.shape, u64::MAX as int) {
                None => Err(ErrorView::Invalid("checkpoint_parameter_overflow"@)),
                Some(count) => Ok(
                    items.push(
                        ItemModel {
                            tensor_id: id,
                            dtype: tensor.header.dtype,
                            shape: tensor.header.shape,
                            element_count: count as u64,
                            materializable: encoding_outcome(tensor.header.dtype) is Ok,
                        },
                    ),
                ),
            }
        },
    }
}

/// The inventory with the tensors of one more file, or the first error.
pub open spec fn items_added(
    items: Seq<ItemModel>,
    tensors: Seq<NamedModel<IdentifiedModel>>,
) -> Result<
    Seq<ItemModel>,
    ErrorView,
>
    decreases tensors.len(),
{
    if tensors.len() == 0 {
        Ok(items)
    } else {
        match items_added(items, tensors.drop_last()) {
            Err(error) => Err(error),
            Ok(front) => item_added(front, tensors.last().value),
        }
    }
}

/// The inventory of files in order, or the first error. The tensors of one file
/// come in ascending order of their names.
pub open spec fn files_listed(readings: Seq<ReadingModel>) -> Result<Seq<ItemModel>, ErrorView>
    decreases readings.len(),
{
    if readings.len() == 0 {
        Ok(Seq::empty())
    } else {
        match files_listed(readings.drop_last()) {
            Err(error) => Err(error),
            Ok(front) => match readings.last().tensors {
                Err(error) => Err(error),
                Ok(tensors) => items_added(front, sorted(tensors)),
            },
        }
    }
}

/// What the inventory of a checkpoint is.
pub open spec fn inventory_outcome(readings: Seq<ReadingModel>) -> Result<
    InventoryModel,
    ErrorView,
> {
    if readings.len() == 0 || readings.len() > MAX_CHECKPOINT_FILES {
        Err(ErrorView::Invalid("safetensors_inventory_request_invalid"@))
    } else if !distinct_keys(readings) {
        Err(ErrorView::Invalid("checkpoint_files_not_unique"@))
    } else {
        match files_listed(sorted(readings)) {
            Err(error) => Err(error),
            Ok(items) => Ok(
                InventoryModel {
                    schema: "cerebro.tidex.safetensors_checkpoint_inventory/v1"@,
                    tensors: items,
                },
            ),
        }
    }
}

proof fn lemma_item_error_persists(
    items: Seq<ItemModel>,
    tensors: Seq<NamedModel<IdentifiedModel>>,
    n: int,
)
    requires
        0 <= n <= tensors.len(),
        items_added(items, tensors.take(n)) is Err,
    ensures
        items_added(items, tensors) == items_added(items, tensors.take(n)),
    decreases tensors.len() - n,
{
    if n == tensors.len() {
        assert(tensors.take(n) == tensors);
    } else {
        assert(tensors.take(n + 1).drop_last() == tensors.take(n));
        lemma_item_error_persists(items, tensors, n + 1);
    }
}

proof fn lemma_file_error_persists(readings: Seq<ReadingModel>, n: int)
    requires
        0 <= n <= readings.len(),
        files_listed(readings.take(n)) is Err,
    ensures
        files_listed(readings) == files_listed(readings.take(n)),
    decreases readings.len() - n,
{
    if n == readings.len() {
        assert(readings.take(n) == readings);
    } else {
        assert(readings.take(n + 1).drop_last() == readings.take(n));
        lemma_file_error_persists(readings, n + 1);
    }
}

/// The identities that an inventory lists, sorted for lookup.
pub open spec fn indexes(index: Seq<NamedModel<()>>, items: Seq<ItemModel>) -> bool {
    forall|id: Seq<char>| has_name(index, id) <==> lists(items, id)
}

/// Adds one tensor to an inventory and to the index of its identities.
fn add_item(
    items: &mut Vec<SafeTensorsTensorInventoryItem>,
    index: &mut Vec<Named<()>>,
    tensor: IdentifiedTensor,
) -> (added: BrainResult<()>)
    requires
        strictly_ascending(views(old(index)@)),
        indexes(views(old(index)@), views(old(items)@)),
    ensures
        match added {
            Ok(_) => {
                &&& item_added(views(old(items)@), tensor@) == Ok::<_, ErrorView>(
                    views(final(items)@),
                )
                &&& strictly_ascending(views(final(index)@))
                &&& indexes(views(final(index)@), views(final(items)@))
            },
            Err(error) => item_added(views(old(items)@), tensor@) == Err::<Seq<ItemModel>, _>(
                error@,
            ),
        },
{
    let ghost before = views(items@);
    let ghost index_before = views(index@);
    let tensor_id = match tensor.tensor_id {
        Ok(id) => id,
        Err(error) => return Err(error),
    };
    let fresh = insert_named(index, Named { name: tensor_id.text.clone(), value: () });
    if !fresh {
        return Err(BrainError::invalid("checkpoint_duplicate_tensor"));
    }
    let count: u64 = match element_count(&tensor.header.shape) {
        Some(count) => count,
        None => return Err(BrainError::invalid("checkpoint_parameter_overflow")),
    };
    let materializable = materialization_encoding(tensor.header.dtype.as_str()).is_ok();
    let item = SafeTensorsTensorInventoryItem {
        tensor_id,
        dtype: tensor.header.dtype,
        shape: tensor.header.shape,
        element_count: count,
        materializable,
    };
    proof {
        let after = before.push(item@);
        let placed_index = views(index@);
        assert forall|id: Seq<char>| has_name(placed_index, id) <==> lists(after, id) by {
            crate::order::placing_adds_one_name(
                index_before,
                NamedModel { name: item@.tensor_id, value: () },
                id,
            );
            if lists(after, id) {
                let k = choose|k: int| 0 <= k < after.len() && (#[trigger] after[k]).tensor_id == id;
                if k < before.len() {
                    assert(before[k].tensor_id == id);
                }
            }
            if lists(before, id) {
                let k = choose|k: int|
                    0 <= k < before.len() && (#[trigger] before[k]).tensor_id == id;
                assert(after[k].tensor_id == id);
            }
            if id == item@.tensor_id {
                assert(after[before.len() as int].tensor_id == id);
            }
        }
    }
    items.push(item);
    Ok(())
}

/// Lists every tensor of a checkpoint.
///
/// Each requested file comes with the outcome of admitting it and reading its
/// header table; files are listed in the order of their paths, and the tensors of
/// a file in the order of their names.
pub fn inventory_safetensors_checkpoint(readings: Vec<CheckpointReading>) -> (inventory: BrainResult<
    SafeTensorsCheckpointInventory,
>)
    ensures
        outcome(inventory) == inventory_outcome(views(readings@)),
{
    if readings.len() == 0 || readings.len() > MAX_CHECKPOINT_FILES {
        return Err(BrainError::invalid("safetensors_inventory_request_invalid"));
    }
    let ghost given = views(readings@);
    proof {
        sorting_permutes_and_ascends(given);
        sorting_keeps_distinctness(given);
    }
    let files = sort(readings);
    if !strictly_sorted(&files) {
        return Err(BrainError::invalid("checkpoint_files_not_unique"));
    }
    let ghost models = views(files@);
    let ghost pending = files@;
    let mut items: Vec<SafeTensorsTensorInventoryItem> = Vec::new();
    let mut index: Vec<Named<()>> = Vec::new();
    assert(models.take(0) == Seq::<ReadingModel>::empty());
    assert(views(items@) =~= Seq::empty());
    assert(views(index@) =~= Seq::empty());
    for reading in it: files
        invariant
            it.seq() == pending,
            models == views(pending),
            given == views(readings@),
            inventory_outcome(given) == (match files_listed(models) {
                Err(error) => Err(error),
                Ok(items) => Ok(
                    InventoryModel {
                        schema: "cerebro.tidex.safetensors_checkpoint_inventory/v1"@,
                        tensors: items,
                    },
                ),
            }),
            files_listed(models.take(it.index())) == Ok::<_, ErrorView>(views(items@)),
            strictly_ascending(views(index@)),
            indexes(views(index@), views(items@)),
    {
        let ghost at = it.index();
        assert(models.take(at + 1).drop_last() == models.take(at));
        assert(models.take(at + 1).last() == reading@);
        let tensors = match reading.tensors {
            Ok(tensors) => tensors,
            Err(error) => {
                proof {
                    lemma_file_error_persists(models, at + 1);
                }
                return Err(error);
            },
        };
        let in_order = sort(tensors);
        let ghost entries = views(in_order@);
        let ghost entries_pending = in_order@;
        let ghost start = views(items@);
        assert(entries.take(0) == Seq::<NamedModel<IdentifiedModel>>::empty());
        for tensor in inner: in_order
            invariant
                inner.seq() == entries_pending,
                entries == views(entries_pending),
                items_added(start, entries.take(inner.index())) == Ok::<_, ErrorView>(
                    views(items@),
                ),
                files_listed(models.take(at + 1)) == items_added(start, entries),
                0 <= at < models.len(),
                inventory_outcome(given) == (match files_listed(models) {
                    Err(error) => Err(error),
                    Ok(items) => Ok(
                        InventoryModel {
                            schema: "cerebro.tidex.safetensors_checkpoint_inventory/v1"@,
                            tensors: items,
                        },
                    ),
                }),
                given == views(readings@),
                strictly_ascending(views(index@)),
                indexes(views(index@), views(items@)),
        {
            let ghost k = inner.index();
            assert(entries.take(k + 1).drop_last() == entries.take(k));
            assert(entries.take(k + 1).last() == tensor@);
            match add_item(&mut items, &mut index, tensor.value) {
                Ok(_) => {},
                Err(error) => {
                    proof {
                        lemma_item_error_persists(start, entries, k + 1);
                        lemma_file_error_persists(models, at + 1);
                    }
                    return Err(error);
                },
            }
        }
        assert(entries.take(entries.len() as int) == entries);
    }
    assert(models.take(models.len() as int) == models);
    Ok(
        SafeTensorsCheckpointInventory {
            schema: "cerebro.tidex.safetensors_checkpoint_inventory/v1".to_owned(),
            tensors: items,
        },
    )
}

proof fn lemma_type_names()
    ensures
        "F64"@ != "F32"@,
        "F64"@ != "BF16"@,
        "F64"@ != "F16"@,
        "F64"@ != "F8_E4M3"@,
        "F64"@ != "F8_E4M3FN"@,
        "F64"@ != "F8_E5M2"@,
        "F64"@ != "BOOL"@,
        "F64"@ != "U8"@,
        "F64"@ != "I8"@,
        "F64"@ != "I16"@,
        "F64"@ != "U16"@,
        "F64"@ != "I32"@,
        "F64"@ != "U32"@,
        "F64"@ != "I64"@,
        "F64"@ != "U64"@,
        "F32"@ != "BF16"@,
        "F32"@ != "F16"@,
        "F32"@ != "F8_E4M3"@,
        "F32"@ != "F8_E4M3FN"@,
        "F32"@ != "F8_E5M2"@,
        "F32"@ != "BOOL"@,
        "F32"@ != "U8"@,
        "F32"@ != "I8"@,
        "F32"@ != "I16"@,
        "F32"@ != "U16"@,
        "F32"@ != "I32"@,
        "F32"@ != "U32"@,
        "F32"@ != "I64"@,
        "F32"@ != "U64"@,
        "BF16"@ != "F16"@,
        "BF16"@ != "F8_E4M3"@,
        "BF16"@ != "F8_E4M3FN"@,
        "BF16"@ != "F8_E5M2"@,
        "BF16"@ != "BOOL"@,
        "BF16"@ != "U8"@,
        "BF16"@ != "I8"@,
        "BF16"@ != "I16"@,
        "BF16"@ != "U16"@,
        "BF16"@ != "I32"@,
        "BF16"@ != "U32"@,
        "BF16"@ != "I64"@,
        "BF16"@ != "U64"@,
        "F16"@ != "F8_E4M3"@,
        "F16"@ != "F8_E4M3FN"@,
        "F16"@ != "F8_E5M2"@,
        "F16"@ != "BOOL"@,
        "F16"@ != "U8"@,
        "F16"@ != "I8"@,
        "F16"@ != "I16"@,
        "F16"@ != "U16"@,
        "F16"@ != "I32"@,
        "F16"@ != "U32"@,
        "F16"@ != "I64"@,
        "F16"@ != "U64"@,
        "F8_E4M3"@ != "F8_E4M3FN"@,
        "F8_E4M3"@ != "F8_E5M2"@,
        "F8_E4M3"@ != "BOOL"@,
        "F8_E4M3"@ != "U8"@,
        "F8_E4M3"@ != "I8"@,
        "F8_E4M3"@ != "I16"@,
        "F8_E4M3"@ != "U16"@,
        "F8_E4M3"@ != "I32"@,
        "F8_E4M3"@ != "U32"@,
        "F8_E4M3"@ != "I64"@,
        "F8_E4M3"@ != "U64"@,
        "F8_E4M3FN"@ != "F8_E5M2"@,
        "F8_E4M3FN"@ != "BOOL"@,
        "F8_E4M3FN"@ != "U8"@,
        "F8_E4M3FN"@ != "I8"@,
        "F8_E4M3FN"@ != "I16"@,
        "F8_E4M3FN"@ != "U16"@,
        "F8_E4M3FN"@ != "I32"@,
        "F8_E4M3FN"@ != "U32"@,
        "F8_E4M3FN"@ != "I64"@,
        "F8_E4M3FN"@ != "U64"@,
        "F8_E5M2"@ != "BOOL"@,
        "F8_E5M2"@ != "U8"@,
        "F8_E5M2"@ != "I8"@,
        "F8_E5M2"@ != "I16"@,
        "F8_E5M2"@ != "U16"@,
        "F8_E5M2"@ != "I32"@,
        "F8_E5M2"@ != "U32"@,
        "F8_E5M2"@ != "I64"@,
        "F8_E5M2"@ != "U64"@,
        "BOOL"@ != "U8"@,
        "BOOL"@ != "I8"@,
        "BOOL"@ != "I16"@,
        "BOOL"@ != "U16"@,
        "BOOL"@ != "I32"@,
        "BOOL"@ != "U32"@,
        "BOOL"@ != "I64"@,
        "BOOL"@ != "U64"@,
        "U8"@ != "I8"@,
        "U8"@ != "I16"@,
        "U8"@ != "U16"@,
        "U8"@ != "I32"@,
        "U8"@ != "U32"@,
        "U8"@ != "I64"@,
        "U8"@ != "U64"@,
        "I8"@ != "I16"@,
        "I8"@ != "U16"@,
        "I8"@ != "I32"@,
        "I8"@ != "U32"@,
        "I8"@ != "I64"@,
        "I8"@ != "U64"@,
        "I16"@ != "U16"@,
        "I16"@ != "I32"@,
        "I16"@ != "U32"@,
        "I16"@ != "I64"@,
        "I16"@ != "U64"@,
        "U16"@ != "I32"@,
        "U16"@ != "U32"@,
        "U16"@ != "I64"@,
        "U16"@ != "U64"@,
        "I32"@ != "U32"@,
        "I32"@ != "I64"@,
        "I32"@ != "U64"@,
        "U32"@ != "I64"@,
        "U32"@ != "U64"@,
        "I64"@ != "U64"@,
{
    reveal_strlit("F64");
    reveal_strlit("F32");
    reveal_strlit("BF16");
    reveal_strlit("F16");
    reveal_strlit("F8_E4M3");
    reveal_strlit("F8_E4M3FN");
    reveal_strlit("F8_E5M2");
    reveal_strlit("BOOL");
    reveal_strlit("U8");
    reveal_strlit("I8");
    reveal_strlit("I16");
    reveal_strlit("U16");
    reveal_strlit("I32");
    reveal_strlit("U32");
    reveal_strlit("I64");
    reveal_strlit("U64");
    assert("F64"@.len() == 3 && "F64"@[0] == 'F' && "F64"@[1] == '6');
    assert("F32"@.len() == 3 && "F32"@[0] == 'F' && "F32"@[1] == '3');
    assert("BF16"@.len() == 4 && "BF16"@[0] == 'B' && "BF16"@[1] == 'F');
    assert("F16"@.len() == 3 && "F16"@[0] == 'F' && "F16"@[1] == '1');
    assert("F8_E4M3"@.len() == 7 && "F8_E4M3"@[0] == 'F' && "F8_E4M3"@[1] == '8');
    assert("F8_E4M3FN"@.len() == 9 && "F8_E4M3FN"@[0] == 'F' && "F8_E4M3FN"@[1] == '8');
    assert("F8_E5M2"@.len() == 7 && "F8_E5M2"@[0] == 'F' && "F8_E5M2"@[1] == '8');
    assert("BOOL"@.len() == 4 && "BOOL"@[0] == 'B' && "BOOL"@[1] == 'O');
    assert("U8"@.len() == 2 && "U8"@[0] == 'U' && "U8"@[1] == '8');
    assert("I8"@.len() == 2 && "I8"@[0] == 'I' && "I8"@[1] == '8');
    assert("I16"@.len() == 3 && "I16"@[0] == 'I' && "I16"@[1] == '1');
    assert("U16"@.len() == 3 && "U16"@[0] == 'U' && "U16"@[1] == '1');
    assert("I32"@.len() == 3 && "I32"@[0] == 'I' && "I32"@[1] == '3');
    assert("U32"@.len() == 3 && "U32"@[0] == 'U' && "U32"@[1] == '3');
    assert("I64"@.len() == 3 && "I64"@[0] == 'I' && "I64"@[1] == '6');
    assert("U64"@.len() == 3 && "U64"@[0] == 'U' && "U64"@[1] == '6');
    assert("F8_E4M3"@[4] == '4' && "F8_E5M2"@[4] == '5');
}

/// A tensor is materialised in the scalar type that its own type names, and in no
/// other: the half-precision formats are told apart, and both spellings of the
/// eight-bit format with three fraction bits name that one format. Every other type
/// is refused by its name.
pub proof fn scalar_types_are_those_that_dtypes_name(dtype: Seq<char>)
    ensures
        ({
            &&& encoding_outcome(dtype) == Ok::<_, ErrorView>(
                ReceiverScalarEncoding::Floating { scalar_type: FloatingScalarType::Float64 },
            ) <==> dtype == "F64"@
            &&& encoding_outcome(dtype) == Ok::<_, ErrorView>(
                ReceiverScalarEncoding::Floating { scalar_type: FloatingScalarType::Float32 },
            ) <==> dtype == "F32"@
            &&& encoding_outcome(dtype) == Ok::<_, ErrorView>(
                ReceiverScalarEncoding::Floating { scalar_type: FloatingScalarType::Bfloat16 },
            ) <==> dtype == "BF16"@
            &&& encoding_outcome(dtype) == Ok::<_, ErrorView>(
                ReceiverScalarEncoding::Floating { scalar_type: FloatingScalarType::Float16 },
            ) <==> dtype == "F16"@
            &&& encoding_outcome(dtype) == Ok::<_, ErrorView>(
                ReceiverScalarEncoding::Floating { scalar_type: FloatingScalarType::Float8E4m3 },
            ) <==> dtype == "F8_E4M3"@ || dtype == "F8_E4M3FN"@
            &&& encoding_outcome(dtype) == Ok::<_, ErrorView>(
                ReceiverScalarEncoding::Floating { scalar_type: FloatingScalarType::Float8E5m2 },
            ) <==> dtype == "F8_E5M2"@
            &&& encoding_outcome(dtype) is Err ==> encoding_outcome(dtype) == Err::<
                ReceiverScalarEncoding,
                _,
            >(ErrorView::Invalid("materialization_tensor_dtype_not_continuous:"@ + dtype))
        }),
{
    lemma_type_names();
}

/// Two types are materialised alike only where they are one type, or the two
/// spellings of the eight-bit format with three fraction bits.
pub proof fn encodings_tell_dtypes_apart(a: Seq<char>, b: Seq<char>)
    requires
        encoding_outcome(a) is Ok,
        encoding_outcome(a) == encoding_outcome(b),
    ensures
        a == b || (a == "F8_E4M3"@ || a == "F8_E4M3FN"@) && (b == "F8_E4M3"@ || b == "F8_E4M3FN"@),
{
    scalar_types_are_those_that_dtypes_name(a);
    scalar_types_are_those_that_dtypes_name(b);
}

/// An element takes as many bytes as its type says in bits: one for the types of
/// eight bits and for a truth value, two, four or eight for the others.
pub proof fn widths_are_those_that_dtypes_name(dtype: Seq<char>)
    ensures
        dtype_width(dtype) == Some(1u64) <==> dtype == "BOOL"@ || dtype == "U8"@ || dtype == "I8"@
            || dtype == "F8_E4M3"@ || dtype == "F8_E4M3FN"@ || dtype == "F8_E5M2"@,
        dtype_width(dtype) == Some(2u64) <==> dtype == "I16"@ || dtype == "U16"@ || dtype
            == "BF16"@ || dtype == "F16"@,
        dtype_width(dtype) == Some(4u64) <==> dtype == "I32"@ || dtype == "U32"@ || dtype
            == "F32"@,
        dtype_width(dtype) == Some(8u64) <==> dtype == "I64"@ || dtype == "U64"@ || dtype
            == "F64"@,
        dtype_width(dtype) matches Some(width) ==> width == 1 || width == 2 || width == 4 || width
            == 8,
{
    lemma_type_names();
}

/// The number of elements of a shape: the product of its dimensions.
pub open spec fn elements_of(shape: Seq<usize>) -> int {
    shape.fold_left(1int, |product: int, dimension: usize| product * dimension)
}

/// A counted shape is counted right, and a shape without an empty dimension is
/// refused only where its number of elements exceeds the limit.
pub proof fn counts_are_products_of_the_dimensions(shape: Seq<usize>, limit: int)
    requires
        limit >= 1,
    ensures
        bounded_product(shape, limit) matches Some(count) ==> count == elements_of(shape) && count
            <= limit,
        !shape.contains(0) ==> (bounded_product(shape, limit) is None <==> elements_of(shape)
            > limit),
        !shape.contains(0) ==> elements_of(shape) >= 1,
    decreases shape.len(),
{
    if shape.len() > 0 {
        let front = shape.drop_last();
        let last = shape.last();
        counts_are_products_of_the_dimensions(front, limit);
        assert(elements_of(shape) == elements_of(front) * last);
        if !shape.contains(0) {
            assert(!front.contains(0)) by {
                if front.contains(0) {
                    let k = choose|k: int| 0 <= k < front.len() && front[k] == 0;
                    assert(shape[k] == 0);
                }
            }
            assert(shape[shape.len() - 1] != 0);
            let whole = elements_of(front);
            assert(whole * last >= whole) by (nonlinear_arith)
                requires
                    whole >= 1,
                    last >= 1,
            ;
        }
    }
}

/// Whether a header is such as an entry of a table may have: in a data region of
/// the given length, a tensor without an empty dimension whose bytes are exactly
/// those of its elements.
pub open spec fn describes_its_bytes(header: HeaderModel, width: int, data_bytes: int) -> bool {
    &&& header.shape.len() > 0
    &&& forall|i: int| 0 <= i < header.shape.len() ==> #[trigger] header.shape[i] > 0
    &&& header.start <= header.end <= data_bytes
    &&& header.end - header.start == elements_of(header.shape) * width
}

/// An entry of a table is accepted exactly when it can be read, its type has a
/// width, its name is neither empty nor padded, and it describes its bytes; and it
/// is accepted as it was read.
pub proof fn accepted_entries_describe_their_bytes(
    name: Seq<char>,
    tree: JsonTree,
    data_bytes: u64,
)
    ensures
        entry_outcome(name, tree, data_bytes) is Ok <==> {
            &&& header_of(tree) is Some
            &&& dtype_width(header_of(tree)->0.dtype) is Some
            &&& name.len() > 0
            &&& !crate::text::is_white_space(name[0])
            &&& !crate::text::is_white_space(name.last())
            &&& describes_its_bytes(
                header_of(tree)->0,
                dtype_width(header_of(tree)->0.dtype)->0 as int,
                data_bytes as int,
            )
        },
        entry_outcome(name, tree, data_bytes) matches Ok(header) ==> header_of(tree) == Some(
            header,
        ),
{
    if header_of(tree) is Some && dtype_width(header_of(tree)->0.dtype) is Some {
        let header = header_of(tree)->0;
        let width = dtype_width(header.dtype)->0 as int;
        widths_are_those_that_dtypes_name(header.dtype);
        counts_are_products_of_the_dimensions(header.shape, u64::MAX as int);
        if describes_its_bytes(header, width, data_bytes as int) {
            assert(!header.shape.contains(0));
            let count = elements_of(header.shape);
            assert(count <= count * width) by (nonlinear_arith)
                requires
                    count >= 1,
                    width >= 1,
            ;
        }
        if entry_outcome(name, tree, data_bytes) is Ok {
            assert forall|i: int| 0 <= i < header.shape.len() implies #[trigger] header.shape[i]
                > 0 by {
                assert(header.shape.contains(header.shape[i]));
            }
        }
    }
}

/// The header of a tensor is what its members say: the type, the dimensions one by
/// one, and the two ends of its bytes.
pub proof fn headers_are_read_from_their_members(tree: JsonTree)
    requires
        tree is Object,
    ensures
        header_of(tree) matches Some(header) ==> {
            let shape = crate::json::member(tree, "shape"@);
            let offsets = crate::json::member(tree, "data_offsets"@);
            &&& crate::json::member(tree, "dtype"@) == Some(JsonTree::Text(header.dtype))
            &&& shape is Some && shape->0 is Array
            &&& shape->0->Array_0.len() == header.shape.len()
            &&& forall|i: int|
                0 <= i < header.shape.len() ==> unsigned_of(shape->0->Array_0[i]) == Some(
                    #[trigger] header.shape[i] as u64,
                )
            &&& offsets is Some && offsets->0 is Array
            &&& offsets->0->Array_0.len() == 2
            &&& unsigned_of(offsets->0->Array_0[0]) == Some(header.start)
            &&& unsigned_of(offsets->0->Array_0[1]) == Some(header.end)
        },
{
    if header_of(tree) is Some {
        lemma_dimensions_one_by_one(crate::json::member(tree, "shape"@)->0->Array_0);
    }
}

proof fn lemma_dimensions_one_by_one(items: Seq<JsonTree>)
    requires
        dimensions_of(items) is Some,
    ensures
        dimensions_of(items)->0.len() == items.len(),
        forall|i: int|
            0 <= i < items.len() ==> unsigned_of(items[i]) == Some(
                #[trigger] dimensions_of(items)->0[i] as u64,
            ),
    decreases items.len(),
{
    if items.len() > 0 {
        lemma_dimensions_one_by_one(items.drop_last());
        let read = dimensions_of(items)->0;
        let front = dimensions_of(items.drop_last())->0;
        assert forall|i: int| 0 <= i < items.len() implies unsigned_of(items[i]) == Some(
            #[trigger] read[i] as u64,
        ) by {
            if i < front.len() {
                assert(read[i] == front[i]);
                assert(items.drop_last()[i] == items[i]);
            }
        }
    }
}

/// A table lists every tensor of its document and nothing else, each with the header
/// that its entry states; the metadata is no tensor.
pub proof fn tables_list_every_tensor_of_their_document(
    members: Seq<(Seq<char>, JsonTree)>,
    data_bytes: u64,
)
    requires
        headers_outcome(JsonTree::Object(members), data_bytes) is Ok,
    ensures
        ({
            let table = headers_outcome(JsonTree::Object(members), data_bytes)->Ok_0;
            &&& table.len() > 0
            &&& forall|i: int|
                0 <= i < members.len() && (#[trigger] members[i]).0 != "__metadata__"@ ==> {
                    &&& entry_outcome(members[i].0, members[i].1, data_bytes) is Ok
                    &&& table.contains(
                        NamedModel {
                            name: members[i].0,
                            value: entry_outcome(members[i].0, members[i].1, data_bytes)->Ok_0,
                        },
                    )
                }
            &&& forall|k: int|
                0 <= k < table.len() ==> exists|i: int|
                    0 <= i < members.len() && members[i].0 != "__metadata__"@ && (
                    #[trigger] members[i]).0 == (#[trigger] table[k]).name && entry_outcome(
                        members[i].0,
                        members[i].1,
                        data_bytes,
                    ) == Ok::<_, ErrorView>(table[k].value)
            &&& forall|i: int, j: int|
                0 <= i < j < table.len() ==> (#[trigger] table[i]).name != (#[trigger] table[j]).name
        }),
{
    broadcast use vstd::seq_lib::group_to_multiset_ensures;

    let tree = JsonTree::Object(members);
    let table = headers_outcome(tree, data_bytes)->Ok_0;
    let given = table_entries(members, data_bytes)->Ok_0;
    sorting_permutes_and_ascends(given);
    sorting_keeps_distinctness(given);
    lemma_entries_of_members(members, data_bytes);
    assert forall|i: int|
        0 <= i < members.len() && (#[trigger] members[i]).0 != "__metadata__"@ implies {
        &&& entry_outcome(members[i].0, members[i].1, data_bytes) is Ok
        &&& table.contains(
            NamedModel {
                name: members[i].0,
                value: entry_outcome(members[i].0, members[i].1, data_bytes)->Ok_0,
            },
        )
    } by {
        let entry = NamedModel {
            name: members[i].0,
            value: entry_outcome(members[i].0, members[i].1, data_bytes)->Ok_0,
        };
        assert(given.contains(entry));
        assert(given.to_multiset().count(entry) > 0);
    }
    assert forall|k: int| 0 <= k < table.len() implies exists|i: int|
        0 <= i < members.len() && members[i].0 != "__metadata__"@ && (#[trigger] members[i]).0 == (
        #[trigger] table[k]).name && entry_outcome(members[i].0, members[i].1, data_bytes) == Ok::<
            _,
            ErrorView,
        >(table[k].value) by {
        assert(table.contains(table[k]));
        assert(table.to_multiset().count(table[k]) > 0);
        assert(given.contains(table[k]));
    }
}

proof fn lemma_entries_of_members(members: Seq<(Seq<char>, JsonTree)>, data_bytes: u64)
    requires
        table_entries(members, data_bytes) is Ok,
    ensures
        ({
            let given = table_entries(members, data_bytes)->Ok_0;
            &&& forall|i: int|
                0 <= i < members.len() && (#[trigger] members[i]).0 != "__metadata__"@ ==> {
                    &&& entry_outcome(members[i].0, members[i].1, data_bytes) is Ok
                    &&& given.contains(
                        NamedModel {
                            name: members[i].0,
                            value: entry_outcome(members[i].0, members[i].1, data_bytes)->Ok_0,
                        },
                    )
                }
            &&& forall|entry: NamedModel<HeaderModel>| #[trigger]
                given.contains(entry) ==> exists|i: int|
                    0 <= i < members.len() && members[i].0 != "__metadata__"@ && (
                    #[trigger] members[i]).0 == entry.name && entry_outcome(
                        members[i].0,
                        members[i].1,
                        data_bytes,
                    ) == Ok::<_, ErrorView>(entry.value)
        }),
    decreases members.len(),
{
    if members.len() > 0 {
        let front = members.drop_last();
        lemma_entries_of_members(front, data_bytes);
        let before = table_entries(front, data_bytes)->Ok_0;
        let given = table_entries(members, data_bytes)->Ok_0;
        let (name, tree) = members.last();
        assert forall|i: int|
            0 <= i < members.len() && (#[trigger] members[i]).0 != "__metadata__"@ implies {
            &&& entry_outcome(members[i].0, members[i].1, data_bytes) is Ok
            &&& given.contains(
                NamedModel {
                    name: members[i].0,
                    value: entry_outcome(members[i].0, members[i].1, data_bytes)->Ok_0,
                },
            )
        } by {
            let entry = NamedModel {
                name: members[i].0,
                value: entry_outcome(members[i].0, members[i].1, data_bytes)->Ok_0,
            };
            if i < front.len() {
                assert(front[i] == members[i]);
                assert(before.contains(entry));
                let k = choose|k: int| 0 <= k < before.len() && before[k] == entry;
                assert(given[k] == entry);
            } else {
                assert(given[given.len() - 1] == entry);
            }
        }
        assert forall|entry: NamedModel<HeaderModel>| #[trigger]
            given.contains(entry) implies exists|i: int|
            0 <= i < members.len() && members[i].0 != "__metadata__"@ && (#[trigger] members[i]).0
                == entry.name && entry_outcome(members[i].0, members[i].1, data_bytes) == Ok::<
                _,
                ErrorView,
            >(entry.value) by {
            let k = choose|k: int| 0 <= k < given.len() && given[k] == entry;
            if k < before.len() {
                assert(before[k] == entry);
                assert(before.contains(entry));
                let i = choose|i: int|
                    0 <= i < front.len() && front[i].0 != "__metadata__"@ && (
                    #[trigger] front[i]).0 == entry.name && entry_outcome(
                        front[i].0,
                        front[i].1,
                        data_bytes,
                    ) == Ok::<_, ErrorView>(entry.value);
                assert(members[i] == front[i]);
            } else {
                assert(members[members.len() - 1].0 == entry.name);
            }
        }
    }
}

/// The length of a header is the number that its eight bytes hold, the least
/// significant first; it is accepted exactly when it is positive, at most 64 MiB and
/// within the file.
pub proof fn header_lengths_are_little_endian(prefix: Seq<u8>, file_size: u64)
    requires
        prefix.len() == 8,
    ensures
        ({
            let length = prefix[0] + 0x100 * prefix[1] + 0x1_0000 * prefix[2] + 0x100_0000
                * prefix[3] + 0x1_0000_0000 * prefix[4] + 0x100_0000_0000 * prefix[5]
                + 0x1_0000_0000_0000 * prefix[6] + 0x100_0000_0000_0000 * prefix[7];
            &&& header_length_outcome(prefix, file_size) is Ok <==> 0 < length <= 67_108_864
                && length + 8 <= file_size
            &&& header_length_outcome(prefix, file_size) matches Ok(read) ==> read == length
            &&& header_length_outcome(prefix, file_size) matches Err(error) ==> error
                == ErrorView::Invalid("safetensors_header_length_invalid"@)
        }),
{
    reveal_with_fuel(little_endian, 9);
    assert(prefix.skip(1)[0] == prefix[1]);
    assert(prefix.skip(1).skip(1)[0] == prefix[2]);
    assert(prefix.skip(1).skip(1).skip(1)[0] == prefix[3]);
    assert(prefix.skip(1).skip(1).skip(1).skip(1)[0] == prefix[4]);
    assert(prefix.skip(1).skip(1).skip(1).skip(1).skip(1)[0] == prefix[5]);
    assert(prefix.skip(1).skip(1).skip(1).skip(1).skip(1).skip(1)[0] == prefix[6]);
    assert(prefix.skip(1).skip(1).skip(1).skip(1).skip(1).skip(1).skip(1)[0] == prefix[7]);
}

/// Whether one path lies at or below another, part by part.
pub open spec fn lies_below(path: PathModel, base: PathModel) -> bool {
    &&& base.parts.len() <= path.parts.len()
    &&& forall|i: int| 0 <= i < base.parts.len() ==> path.parts[i] == #[trigger] base.parts[i]
}

/// A requested file is read exactly when its path neither starts at the root of the
/// file system nor climbs, and what it resolves to is a file below the checkpoint
/// root, or below the blobs beside it where the root is a snapshot. What is read is
/// what it resolves to, and the refusals tell the two conditions apart.
pub proof fn files_are_read_only_where_they_are_confined(
    relative: PathModel,
    target: TargetModel,
    error: ErrorView,
)
    ensures
        ({
            let direct = !(relative.parts.len() > 0 && relative.parts[0] is Root) && forall|i: int|
                0 <= i < relative.parts.len() ==> !(#[trigger] relative.parts[i] is Parent);
            let root = target.canonical_root;
            let inside = target.is_file && (lies_below(target.path, root) || blobs_beside(
                root,
            ) is Some && target.canonical_blobs is Some && lies_below(
                target.path,
                target.canonical_blobs->0,
            ));
            &&& confined_outcome(relative, Ok(target)) == if direct && inside {
                Ok::<_, ErrorView>(target.path)
            } else if direct {
                Err(ErrorView::Invalid("checkpoint_path_not_confined_file"@))
            } else {
                Err(ErrorView::Invalid("checkpoint_path_not_relative"@))
            }
            &&& direct ==> confined_outcome(relative, Err(error)) == Err::<PathModel, _>(error)
        }),
{
    lemma_prefixes_are_parts(target.path, target.canonical_root);
    if target.canonical_blobs is Some {
        lemma_prefixes_are_parts(target.path, target.canonical_blobs->0);
    }
}

proof fn lemma_prefixes_are_parts(path: PathModel, base: PathModel)
    ensures
        path.starts_with(base) <==> lies_below(path, base),
{
    if lies_below(path, base) {
        assert(path.parts.take(base.parts.len() as int) =~= base.parts);
    }
    if path.starts_with(base) {
        assert forall|i: int| 0 <= i < base.parts.len() implies path.parts[i]
            == #[trigger] base.parts[i] by {
            assert(path.parts.take(base.parts.len() as int)[i] == base.parts[i]);
        }
    }
}

/// The blobs of a snapshot lie beside the directory that holds the snapshots: for a
/// root `r/snapshots/x` they are `r/blobs`, and no other root has any.
pub proof fn blobs_lie_beside_the_snapshots(root: PathModel)
    ensures
        ({
            let n = root.parts.len() as int;
            let snapshots = seq![115u8, 110, 97, 112, 115, 104, 111, 116, 115];
            let blobs = seq![98u8, 108, 111, 98, 115];
            &&& blobs_beside(root) is Some <==> {
                &&& n >= 2 && !(root.parts[n - 1] is Root)
                &&& root.parts[n - 2] == crate::paths::PartModel::Name(snapshots)
            }
            &&& blobs_beside(root) matches Some(path) ==> path.parts == root.parts.take(
                n - 2,
            ).push(crate::paths::PartModel::Name(blobs))
        }),
{
    let n = root.parts.len() as int;
    if n >= 2 {
        assert(root.parts.drop_last().drop_last() =~= root.parts.take(n - 2));
        assert(root.parts.drop_last().last() == root.parts[n - 2]);
    }
}

/// A file is admitted by its digest exactly when its length is known and within the
/// limit.
pub proof fn long_files_are_not_digested(
    length: Result<u64, ErrorView>,
    maximum: u64,
    digest: Result<Seq<char>, ErrorView>,
)
    ensures
        length matches Err(error) ==> digest_outcome(length, maximum, digest) == Err::<
            Seq<char>,
            _,
        >(error),
        length matches Ok(bytes) ==> digest_outcome(length, maximum, digest) == if bytes
            <= maximum {
            digest
        } else {
            Err(ErrorView::Invalid("checkpoint_file_too_large"@))
        },
{
}

/// What an inventory says of a tensor: its own identity, type and shape, how many
/// elements it has, and whether it can be materialised.
pub open spec fn lists_tensor(item: ItemModel, tensor: IdentifiedModel) -> bool {
    &&& tensor.tensor_id == Ok::<_, ErrorView>(item.tensor_id)
    &&& item.dtype == tensor.header.dtype
    &&& item.shape == tensor.header.shape
    &&& item.element_count == elements_of(tensor.header.shape)
    &&& item.materializable <==> encoding_outcome(tensor.header.dtype) is Ok
}

/// Whether a tensor of some reading is the one that an item lists.
pub open spec fn read_somewhere(readings: Seq<ReadingModel>, item: ItemModel) -> bool {
    exists|f: int, k: int|
        0 <= f < readings.len() && readings[f].tensors is Ok && 0 <= k
            < readings[f].tensors->Ok_0.len() && lists_tensor(
            item,
            (#[trigger] readings[f].tensors->Ok_0[k]).value,
        )
}

/// An inventory lists every tensor of its files once, each as the header of its file
/// describes it, and nothing else.
pub proof fn inventories_list_every_tensor_once(readings: Seq<ReadingModel>)
    requires
        inventory_outcome(readings) is Ok,
    ensures
        ({
            let inventory = inventory_outcome(readings)->Ok_0;
            let items = inventory.tensors;
            &&& 0 < readings.len() <= 16_384
            &&& inventory.schema == "cerebro.tidex.safetensors_checkpoint_inventory/v1"@
            &&& forall|i: int, j: int|
                0 <= i < j < items.len() ==> (#[trigger] items[i]).tensor_id != (
                #[trigger] items[j]).tensor_id
            &&& forall|i: int|
                0 <= i < items.len() ==> read_somewhere(readings, #[trigger] items[i])
            &&& forall|f: int| 0 <= f < readings.len() ==> (#[trigger] readings[f]).tensors is Ok
            &&& forall|f: int, k: int|
                0 <= f < readings.len() && 0 <= k < readings[f].tensors->Ok_0.len() ==> listed_in(
                    items,
                    (#[trigger] readings[f].tensors->Ok_0[k]).value,
                )
            &&& forall|i: int, j: int|
                0 <= i < j < readings.len() ==> (#[trigger] readings[i]).path != (
                #[trigger] readings[j]).path
        }),
{
    broadcast use vstd::seq_lib::group_to_multiset_ensures;

    let ordered = sorted(readings);
    let items = inventory_outcome(readings)->Ok_0.tensors;
    sorting_permutes_and_ascends(readings);
    lemma_listed_files(ordered);
    assert forall|i: int| 0 <= i < items.len() implies read_somewhere(
        readings,
        #[trigger] items[i],
    ) by {
        assert(read_somewhere(ordered, items[i]));
        let (f, k) = choose|f: int, k: int|
            0 <= f < ordered.len() && ordered[f].tensors is Ok && 0 <= k
                < ordered[f].tensors->Ok_0.len() && lists_tensor(
                items[i],
                (#[trigger] ordered[f].tensors->Ok_0[k]).value,
            );
        assert(ordered.contains(ordered[f]));
        assert(ordered.to_multiset().count(ordered[f]) > 0);
        assert(readings.contains(ordered[f]));
        let g = choose|g: int| 0 <= g < readings.len() && readings[g] == ordered[f];
        assert(lists_tensor(items[i], readings[g].tensors->Ok_0[k].value));
    }
    assert forall|f: int| 0 <= f < readings.len() implies (
    #[trigger] readings[f]).tensors is Ok by {
        assert(readings.contains(readings[f]));
        assert(readings.to_multiset().count(readings[f]) > 0);
        assert(ordered.contains(readings[f]));
        let g = choose|g: int| 0 <= g < ordered.len() && ordered[g] == readings[f];
        assert(ordered[g].tensors is Ok);
    }
    assert forall|f: int, k: int|
        0 <= f < readings.len() && 0 <= k < readings[f].tensors->Ok_0.len() implies listed_in(
        items,
        (#[trigger] readings[f].tensors->Ok_0[k]).value,
    ) by {
        assert(readings.contains(readings[f]));
        assert(readings.to_multiset().count(readings[f]) > 0);
        assert(ordered.contains(readings[f]));
        let g = choose|g: int| 0 <= g < ordered.len() && ordered[g] == readings[f];
        assert(listed_in(items, ordered[g].tensors->Ok_0[k].value));
    }
    assert forall|i: int, j: int| 0 <= i < j < readings.len() implies (#[trigger] readings[i]).path
        != (#[trigger] readings[j]).path by {
        crate::paths::path_keys_are_faithful(readings[i].path, readings[j].path);
        assert(readings[i].key() != readings[j].key());
    }
}

/// Whether some item lists a tensor.
pub open spec fn listed_in(items: Seq<ItemModel>, tensor: IdentifiedModel) -> bool {
    exists|i: int| 0 <= i < items.len() && lists_tensor(#[trigger] items[i], tensor)
}

spec fn ids_differ(items: Seq<ItemModel>) -> bool {
    forall|i: int, j: int|
        0 <= i < j < items.len() ==> (#[trigger] items[i]).tensor_id != (
        #[trigger] items[j]).tensor_id
}

proof fn lemma_item_added(items: Seq<ItemModel>, tensor: IdentifiedModel)
    requires
        item_added(items, tensor) is Ok,
        ids_differ(items),
    ensures
        ids_differ(item_added(items, tensor)->Ok_0),
        item_added(items, tensor)->Ok_0.len() == items.len() + 1,
        forall|i: int|
            0 <= i < items.len() ==> #[trigger] item_added(items, tensor)->Ok_0[i] == items[i],
        lists_tensor(item_added(items, tensor)->Ok_0[items.len() as int], tensor),
{
    counts_are_products_of_the_dimensions(tensor.header.shape, u64::MAX as int);
    lemma_product_nonnegative(tensor.header.shape, u64::MAX as int);
    let more = item_added(items, tensor)->Ok_0;
    assert forall|i: int, j: int| 0 <= i < j < more.len() implies (#[trigger] more[i]).tensor_id
        != (#[trigger] more[j]).tensor_id by {
        if j == items.len() {
            assert(items[i].tensor_id != more[j].tensor_id);
        }
    }
}

proof fn lemma_items_added(items: Seq<ItemModel>, tensors: Seq<NamedModel<IdentifiedModel>>)
    requires
        items_added(items, tensors) is Ok,
        ids_differ(items),
    ensures
        ({
            let more = items_added(items, tensors)->Ok_0;
            &&& ids_differ(more)
            &&& more.len() == items.len() + tensors.len()
            &&& forall|i: int| 0 <= i < items.len() ==> #[trigger] more[i] == items[i]
            &&& forall|k: int|
                0 <= k < tensors.len() ==> lists_tensor(
                    more[items.len() + k],
                    (#[trigger] tensors[k]).value,
                )
        }),
    decreases tensors.len(),
{
    if tensors.len() > 0 {
        let front = tensors.drop_last();
        lemma_items_added(items, front);
        let before = items_added(items, front)->Ok_0;
        let more = items_added(items, tensors)->Ok_0;
        lemma_item_added(before, tensors.last().value);
        assert forall|i: int| 0 <= i < items.len() implies #[trigger] more[i] == items[i] by {
            assert(more[i] == before[i]);
        }
        assert forall|k: int| 0 <= k < tensors.len() implies lists_tensor(
            more[items.len() + k],
            (#[trigger] tensors[k]).value,
        ) by {
            if k < front.len() {
                assert(front[k] == tensors[k]);
                assert(more[items.len() + k] == before[items.len() + k]);
            }
        }
    }
}

proof fn lemma_listed_files(readings: Seq<ReadingModel>)
    requires
        files_listed(readings) is Ok,
    ensures
        ({
            let items = files_listed(readings)->Ok_0;
            &&& ids_differ(items)
            &&& forall|i: int|
                0 <= i < items.len() ==> read_somewhere(readings, #[trigger] items[i])
            &&& forall|f: int| 0 <= f < readings.len() ==> (#[trigger] readings[f]).tensors is Ok
            &&& forall|f: int, k: int|
                0 <= f < readings.len() && 0 <= k < readings[f].tensors->Ok_0.len() ==> listed_in(
                    items,
                    (#[trigger] readings[f].tensors->Ok_0[k]).value,
                )
        }),
    decreases readings.len(),
{
    broadcast use vstd::seq_lib::group_to_multiset_ensures;

    if readings.len() > 0 {
        let front = readings.drop_last();
        let last = readings.len() - 1;
        lemma_listed_files(front);
        let before = files_listed(front)->Ok_0;
        let items = files_listed(readings)->Ok_0;
        let tensors = readings[last].tensors->Ok_0;
        let ordered = sorted(tensors);
        sorting_permutes_and_ascends(tensors);
        lemma_items_added(before, ordered);
        assert forall|i: int| 0 <= i < items.len() implies read_somewhere(
            readings,
            #[trigger] items[i],
        ) by {
            if i < before.len() {
                assert(read_somewhere(front, before[i]));
                let (f, k) = choose|f: int, k: int|
                    0 <= f < front.len() && front[f].tensors is Ok && 0 <= k
                        < front[f].tensors->Ok_0.len() && lists_tensor(
                        before[i],
                        (#[trigger] front[f].tensors->Ok_0[k]).value,
                    );
                assert(readings[f] == front[f]);
                assert(lists_tensor(items[i], readings[f].tensors->Ok_0[k].value));
            } else {
                let tensor = ordered[i - before.len()];
                assert(lists_tensor(items[i], tensor.value));
                assert(ordered.contains(tensor));
                assert(ordered.to_multiset().count(tensor) > 0);
                assert(tensors.contains(tensor));
                let k = choose|k: int| 0 <= k < tensors.len() && tensors[k] == tensor;
                assert(lists_tensor(items[i], readings[last].tensors->Ok_0[k].value));
            }
        }
        assert forall|f: int| 0 <= f < readings.len() implies (
        #[trigger] readings[f]).tensors is Ok by {
            if f < last {
                assert(front[f] == readings[f]);
            }
        }
        assert forall|f: int, k: int|
            0 <= f < readings.len() && 0 <= k < readings[f].tensors->Ok_0.len() implies listed_in(
            items,
            (#[trigger] readings[f].tensors->Ok_0[k]).value,
        ) by {
            if f < last {
                assert(front[f] == readings[f]);
                assert(listed_in(before, front[f].tensors->Ok_0[k].value));
                let i = choose|i: int|
                    0 <= i < before.len() && lists_tensor(
                        #[trigger] before[i],
                        front[f].tensors->Ok_0[k].value,
                    );
                assert(items[i] == before[i]);
            } else {
                let tensor = tensors[k];
                assert(tensors.contains(tensor));
                assert(tensors.to_multiset().count(tensor) > 0);
                assert(ordered.contains(tensor));
                let at = choose|at: int| 0 <= at < ordered.len() && ordered[at] == tensor;
                assert(lists_tensor(items[before.len() + at], tensor.value));
            }
        }
    }
}

/// Whether an encoding is the one that a type names.
pub open spec fn names_encoding(dtype: Seq<char>, encoding: ReceiverScalarEncoding) -> bool {
    match encoding {
        ReceiverScalarEncoding::Floating { scalar_type } => match scalar_type {
            FloatingScalarType::Float64 => dtype == "F64"@,
            FloatingScalarType::Float32 => dtype == "F32"@,
            FloatingScalarType::Bfloat16 => dtype == "BF16"@,
            FloatingScalarType::Float16 => dtype == "F16"@,
            FloatingScalarType::Float8E4m3 => dtype == "F8_E4M3"@ || dtype == "F8_E4M3FN"@,
            FloatingScalarType::Float8E5m2 => dtype == "F8_E5M2"@,
        },
    }
}

/// Ranges that are not empty are accepted exactly where they cover the data region and
/// do not overlap, in whatever order they are given.
pub proof fn ranges_are_accepted_exactly_where_they_tile(ranges: Seq<ByteRange>, data_bytes: u64)
    requires
        forall|i: int| 0 <= i < ranges.len() ==> (#[trigger] ranges[i]).start < ranges[i].end,
    ensures
        layout_outcome(ranges, data_bytes) is Ok <==> covers(ranges, data_bytes as int)
            && disjoint_within(ranges, data_bytes as int),
        layout_outcome(ranges, data_bytes) matches Err(error) ==> error == ErrorView::Invalid(
            "safetensors_data_offsets_not_contiguous"@,
        ) || error == ErrorView::Invalid("safetensors_data_region_not_fully_described"@),
{
    broadcast use vstd::seq_lib::group_to_multiset_ensures;

    if layout_outcome(ranges, data_bytes) is Ok {
        lemma_accepted_ranges_tile(ranges, data_bytes);
    } else if covers(ranges, data_bytes as int) && disjoint_within(ranges, data_bytes as int) {
        let in_order = sorted(ranges);
        let n = in_order.len() as int;
        sorting_permutes_and_ascends(ranges);
        assert(distinct_keys(ranges)) by {
            assert forall|i: int, j: int| 0 <= i < j < ranges.len() implies (
            #[trigger] ranges[i]).key() != (#[trigger] ranges[j]).key() by {
                assert(ranges[i].start < ranges[i].end && ranges[j].start < ranges[j].end);
                assert(ranges[i].key()[0] == ranges[i].start);
                assert(ranges[j].key()[0] == ranges[j].start);
            }
        }
        sorting_keeps_distinctness(ranges);
        assert forall|i: int| 0 <= i < n implies ranges.contains(#[trigger] in_order[i]) by {
            assert(in_order.contains(in_order[i]));
            assert(in_order.to_multiset().count(in_order[i]) > 0);
        }
        assert forall|i: int, j: int| 0 <= i < j < n implies (#[trigger] in_order[i]).end <= (
        #[trigger] in_order[j]).start by {
            let a = choose|a: int| 0 <= a < ranges.len() && ranges[a] == in_order[i];
            let b = choose|b: int| 0 <= b < ranges.len() && ranges[b] == in_order[j];
            assert(in_order[i].key() != in_order[j].key());
            assert(a != b);
            assert(!key_less(in_order[j].key(), in_order[i].key()));
            assert(in_order[j].key()[0] == in_order[j].start);
            assert(in_order[i].key()[0] == in_order[i].start);
            assert(ranges[a].start < ranges[a].end && ranges[b].start < ranges[b].end);
            if a < b {
                assert(ranges[a].end <= ranges[b].start || ranges[b].end <= ranges[a].start);
            } else {
                assert(ranges[b].end <= ranges[a].start || ranges[a].end <= ranges[b].start);
            }
        }
        assert forall|byte: int| 0 <= byte < data_bytes implies #[trigger] lies_in(
            in_order,
            byte,
        ) by {
            assert(lies_in(ranges, byte));
            let k = choose|k: int|
                0 <= k < ranges.len() && (#[trigger] ranges[k]).start <= byte < ranges[k].end;
            assert(ranges.contains(ranges[k]));
            assert(ranges.to_multiset().count(ranges[k]) > 0);
            assert(in_order.contains(ranges[k]));
            let i = choose|i: int| 0 <= i < n && in_order[i] == ranges[k];
            assert(in_order[i].start <= byte < in_order[i].end);
        }
        assert forall|i: int| 0 <= i < n implies (#[trigger] in_order[i]).start < in_order[i].end
            && in_order[i].end <= data_bytes by {
            let a = choose|a: int| 0 <= a < ranges.len() && ranges[a] == in_order[i];
            assert(ranges[a].start < ranges[a].end && ranges[a].end <= data_bytes);
        }
        assert forall|i: int| 0 <= i < n implies #[trigger] joins(in_order, i) by {
            let from: int = if i == 0 {
                0
            } else {
                in_order[i - 1].end as int
            };
            assert(in_order[i].start < in_order[i].end <= data_bytes);
            if i > 0 {
                assert(in_order[i - 1].end <= in_order[i].start);
            }
            if in_order[i].start != from {
                assert(lies_in(in_order, from));
                let k = choose|k: int|
                    0 <= k < n && (#[trigger] in_order[k]).start <= from < in_order[k].end;
                if k < i - 1 {
                    assert(in_order[k].end <= in_order[i - 1].start);
                    assert(in_order[i - 1].start < in_order[i - 1].end);
                } else if k > i {
                    assert(in_order[i].end <= in_order[k].start);
                }
            }
        }
        let end: int = if n == 0 {
            0
        } else {
            in_order[n - 1].end as int
        };
        if end != data_bytes {
            assert(lies_in(in_order, end));
            let k = choose|k: int|
                0 <= k < n && (#[trigger] in_order[k]).start <= end < in_order[k].end;
            if k < n - 1 {
                assert(in_order[k].end <= in_order[n - 1].start);
                assert(in_order[n - 1].start < in_order[n - 1].end);
            }
        }
    }
}

/// An entry of a header table is refused for what is wrong with it: what is no header
/// is no JSON of one, then its element type is judged, then its shape, then its place,
/// then its size.
pub proof fn entries_are_refused_for_what_is_wrong(
    name: Seq<char>,
    tree: JsonTree,
    data_bytes: u64,
)
    ensures
        ({
            let outcome = entry_outcome(name, tree, data_bytes);
            let header = header_of(tree)->0;
            let typed = header_of(tree) is Some && dtype_width(header.dtype) is Some;
            let width = dtype_width(header.dtype)->0;
            &&& header_of(tree) is None ==> outcome == Err::<HeaderModel, _>(ErrorView::Json)
            &&& header_of(tree) is Some && !typed ==> outcome == Err::<HeaderModel, _>(
                ErrorView::Invalid("checkpoint_dtype_unsupported:"@ + header.dtype),
            )
            &&& typed && !header.shape.contains(0) && elements_of(header.shape) > u64::MAX
                ==> outcome == Err::<HeaderModel, _>(
                ErrorView::Invalid("checkpoint_tensor_shape_overflow"@),
            )
            &&& typed && !header.shape.contains(0) && elements_of(header.shape) <= u64::MAX
                && header.shape.len() > 0 && header.start <= header.end <= data_bytes && name.len()
                > 0 && !crate::text::is_white_space(name[0]) && !crate::text::is_white_space(
                name.last(),
            ) && elements_of(header.shape) * width > u64::MAX ==> outcome == Err::<HeaderModel, _>(
                ErrorView::Invalid("checkpoint_tensor_bytes_overflow"@),
            )
            &&& typed && header.shape.len() == 0 ==> outcome == Err::<HeaderModel, _>(
                ErrorView::Invalid("safetensors_tensor_header_invalid"@),
            )
            &&& typed && !header.shape.contains(0) && elements_of(header.shape) <= u64::MAX && !(
            header.start <= header.end <= data_bytes) ==> outcome == Err::<HeaderModel, _>(
                ErrorView::Invalid("safetensors_tensor_header_invalid"@),
            )
        }),
{
    if header_of(tree) is Some {
        let header = header_of(tree)->0;
        counts_are_products_of_the_dimensions(header.shape, u64::MAX as int);
    }
}

/// A header table is refused for what is wrong with it: for being no object, for the
/// first entry that is refused, for holding no tensor, for a name that comes twice, or
/// for ranges that do not tile the data region. Where nothing is wrong it is accepted.
pub proof fn tables_are_refused_for_what_is_wrong(tree: JsonTree, data_bytes: u64)
    ensures
        !(tree is Object) ==> headers_outcome(tree, data_bytes) == Err::<
            Seq<NamedModel<HeaderModel>>,
            _,
        >(ErrorView::Invalid("safetensors_header_not_object"@)),
        tree is Object ==> {
            let entries = table_entries(tree->Object_0, data_bytes);
            let listed = entries->Ok_0;
            let outcome = headers_outcome(tree, data_bytes);
            &&& entries is Err ==> outcome == Err::<Seq<NamedModel<HeaderModel>>, _>(
                entries->Err_0,
            )
            &&& entries is Ok && listed.len() == 0 ==> outcome == Err::<
                Seq<NamedModel<HeaderModel>>,
                _,
            >(ErrorView::Invalid("safetensors_checkpoint_empty"@))
            &&& entries is Ok && (exists|i: int, j: int|
                0 <= i < j < listed.len() && (#[trigger] listed[i]).name == (
                #[trigger] listed[j]).name) ==> outcome == Err::<Seq<NamedModel<HeaderModel>>, _>(
                ErrorView::Invalid("safetensors_tensor_name_repeated"@),
            )
            &&& entries is Ok && listed.len() > 0 && (forall|i: int, j: int|
                0 <= i < j < listed.len() ==> (#[trigger] listed[i]).name != (
                #[trigger] listed[j]).name) && covers(
                ranges_of(sorted(listed)),
                data_bytes as int,
            ) && disjoint_within(ranges_of(sorted(listed)), data_bytes as int) ==> outcome is Ok
        },
{
    broadcast use vstd::seq_lib::group_to_multiset_ensures;

    if tree is Object && table_entries(tree->Object_0, data_bytes) is Ok {
        let listed = table_entries(tree->Object_0, data_bytes)->Ok_0;
        let entries = sorted(listed);
        lemma_entries_nonempty(tree->Object_0, data_bytes);
        sorting_permutes_and_ascends(listed);
        let ranges = ranges_of(entries);
        assert forall|i: int| 0 <= i < ranges.len() implies (#[trigger] ranges[i]).start
            < ranges[i].end by {
            assert(entries.contains(entries[i]));
            assert(entries.to_multiset().count(entries[i]) > 0);
            assert(listed.contains(entries[i]));
        }
        ranges_are_accepted_exactly_where_they_tile(ranges, data_bytes);
        if exists|i: int, j: int|
            0 <= i < j < listed.len() && (#[trigger] listed[i]).name == (#[trigger] listed[j]).name {
            let (i, j) = choose|i: int, j: int|
                0 <= i < j < listed.len() && (#[trigger] listed[i]).name == (
                #[trigger] listed[j]).name;
            assert(listed[i].key() == listed[j].key());
            assert(!distinct_keys(listed));
        }
        if forall|i: int, j: int|
            0 <= i < j < listed.len() ==> (#[trigger] listed[i]).name != (
            #[trigger] listed[j]).name {
            assert forall|i: int, j: int| 0 <= i < j < listed.len() implies (
            #[trigger] listed[i]).key() != (#[trigger] listed[j]).key() by {
                crate::order::text_keys_are_faithful(listed[i].name, listed[j].name);
            }
            assert(distinct_keys(listed));
        }
    }
}

/// An inventory does not depend on the order in which the files of a checkpoint are
/// given.
pub proof fn inventories_forget_the_order_of_their_files(
    readings: Seq<ReadingModel>,
    other: Seq<ReadingModel>,
)
    requires
        readings.to_multiset() == other.to_multiset(),
        distinct_keys(readings),
        distinct_keys(other),
    ensures
        inventory_outcome(readings) == inventory_outcome(other),
{
    broadcast use vstd::seq_lib::group_to_multiset_ensures;

    assert(readings.len() == readings.to_multiset().len());
    assert(other.len() == other.to_multiset().len());
    crate::order::sorting_forgets_the_order(readings, other);
}

/// An inventory is refused for no file or too many, for a file that is given twice, for
/// the first file that could not be read, and for a tensor that two files hold.
pub proof fn inventories_are_refused_for_what_is_wrong(readings: Seq<ReadingModel>)
    ensures
        readings.len() == 0 || readings.len() > 16_384 ==> inventory_outcome(readings) == Err::<
            InventoryModel,
            _,
        >(ErrorView::Invalid("safetensors_inventory_request_invalid"@)),
        0 < readings.len() <= 16_384 && !distinct_keys(readings) ==> inventory_outcome(readings)
            == Err::<InventoryModel, _>(ErrorView::Invalid("checkpoint_files_not_unique"@)),
        0 < readings.len() <= 16_384 && distinct_keys(readings) ==> {
            let listed = files_listed(sorted(readings));
            &&& listed is Err ==> inventory_outcome(readings) == Err::<InventoryModel, _>(
                listed->Err_0,
            )
            &&& listed is Ok ==> inventory_outcome(readings) is Ok
        },
{
}

/// A tensor is added at the end of an inventory, under its identity and with the shape,
/// the type and the count of its header, unless its identity is unusable, is listed
/// already, or its count does not fit.
pub proof fn tensors_are_added_at_the_end(items: Seq<ItemModel>, tensor: IdentifiedModel)
    ensures
        ({
            let added = item_added(items, tensor);
            &&& added matches Ok(longer) ==> {
                &&& longer.len() == items.len() + 1
                &&& longer.drop_last() == items
                &&& lists_tensor(longer.last(), tensor)
            }
            &&& tensor.tensor_id matches Err(error) ==> added == Err::<Seq<ItemModel>, _>(error)
            &&& tensor.tensor_id matches Ok(id) ==> ((exists|i: int|
                0 <= i < items.len() && (#[trigger] items[i]).tensor_id == id) ==> added == Err::<
                Seq<ItemModel>,
                _,
            >(ErrorView::Invalid("checkpoint_duplicate_tensor"@)))
        }),
{
    counts_are_products_of_the_dimensions(tensor.header.shape, u64::MAX as int);
    if item_added(items, tensor) is Ok {
        let longer = item_added(items, tensor)->Ok_0;
        assert(longer.drop_last() =~= items);
        lemma_product_nonnegative(tensor.header.shape, u64::MAX as int);
    }
}

/// A header may also be given as a list of its three members in their order, and is
/// then read as if it were given by their names. A list of any other length, and
/// anything that is neither a list nor an object, is no header.
pub proof fn headers_may_be_lists_of_their_members(
    dtype: JsonTree,
    shape: JsonTree,
    offsets: JsonTree,
    items: Seq<JsonTree>,
)
    ensures
        header_of(JsonTree::Array(seq![dtype, shape, offsets])) == header_of(
            JsonTree::Object(
                seq![("dtype"@, dtype), ("shape"@, shape), ("data_offsets"@, offsets)],
            ),
        ),
        items.len() != 3 ==> header_of(JsonTree::Array(items)) is None,
        header_of(JsonTree::Null) is None,
        header_of(dtype) is Some ==> dtype is Array || dtype is Object,
{
    reveal_strlit("dtype");
    reveal_strlit("shape");
    reveal_strlit("data_offsets");
    assert("dtype"@[0] == 'd' && "shape"@[0] == 's');
    assert("data_offsets"@.len() == 12 && "dtype"@.len() == 5 && "shape"@.len() == 5);
    let members = seq![("dtype"@, dtype), ("shape"@, shape), ("data_offsets"@, offsets)];
    assert(members.skip(1)[0] == members[1]);
    assert(members.skip(1).skip(1)[0] == members[2]);
    reveal_with_fuel(crate::json::lookup, 4);
    assert(lookup(members, "dtype"@) == Some(dtype));
    assert(lookup(members, "shape"@) == Some(shape));
    assert(lookup(members, "data_offsets"@) == Some(offsets));
}

} // verus!
