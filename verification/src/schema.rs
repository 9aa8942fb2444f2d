//! The logical schema tree and the physical storage kinds of its leaves.

use vstd::pervasive::unreached;
use vstd::prelude::*;

verus! {

/// How one leaf column is stored on disk.
#[derive(Clone, Copy, Debug, PartialEq, Eq, Structural)]
pub enum PhysicalType {
    Boolean,
    Int32,
    Int64,
    Int96,
    Float,
    Double,
    ByteArray,
    /// A byte array of the given fixed width, in bytes.
    FixedLenByteArray(usize),
}

/// The integer types that can key a dictionary.
#[derive(Clone, Copy, Debug, PartialEq, Eq, Structural)]
pub enum IntegerType {
    Int8,
    Int16,
    Int32,
    Int64,
    UInt8,
    UInt16,
    UInt32,
    UInt64,
}

/// The logical type of a schema node.
#[derive(Debug, PartialEq, Eq)]
pub enum DataType {
    Null,
    Boolean,
    Int8,
    Int16,
    Int32,
    Int64,
    UInt8,
    UInt16,
    UInt32,
    UInt64,
    Float16,
    Float32,
    Float64,
    BinaryView,
    Utf8View,
    /// Opaque binary values of a fixed width.
    FixedSizeBinary(usize),
    /// A 128-bit decimal with its precision and scale.
    Decimal(usize, usize),
    /// A 256-bit decimal with its precision and scale.
    Decimal256(usize, usize),
    /// Values keyed by integers of the given type into values of the boxed type.
    Dictionary(IntegerType, Box<DataType>),
    List(Box<Field>),
    LargeList(Box<Field>),
    /// Lists that all have the given number of items.
    FixedSizeList(Box<Field>, usize),
    Struct(Vec<Field>),
    /// A list of key/value entries; the flag says whether the keys are sorted.
    Mapping(Box<Field>, bool),
}

/// A named schema node: a logical type, whether its values may be null, and
/// the two marks that tell a categorical or enum column from a dictionary
/// that is only a way to store text.
#[derive(Debug, PartialEq, Eq)]
pub struct Field {
    pub name: String,
    pub dtype: DataType,
    pub is_nullable: bool,
    pub is_enum: bool,
    pub is_categorical: bool,
}

/// A `Copy` tag for a logical type, for naming it in an error.
#[derive(Clone, Copy, Debug, PartialEq, Eq, Structural)]
pub enum TypeKind {
    Null,
    Boolean,
    Int8,
    Int16,
    Int32,
    Int64,
    UInt8,
    UInt16,
    UInt32,
    UInt64,
    Float16,
    Float32,
    Float64,
    BinaryView,
    Utf8View,
    FixedSizeBinary,
    Decimal,
    Decimal256,
    Dictionary,
    List,
    LargeList,
    FixedSizeList,
    Struct,
    Mapping,
}

impl DataType {
    /// The tag of this type.
    pub open spec fn kind_spec(&self) -> TypeKind {
        match *self {
            DataType::Null => TypeKind::Null,
            DataType::Boolean => TypeKind::Boolean,
            DataType::Int8 => TypeKind::Int8,
            DataType::Int16 => TypeKind::Int16,
            DataType::Int32 => TypeKind::Int32,
            DataType::Int64 => TypeKind::Int64,
            DataType::UInt8 => TypeKind::UInt8,
            DataType::UInt16 => TypeKind::UInt16,
            DataType::UInt32 => TypeKind::UInt32,
            DataType::UInt64 => TypeKind::UInt64,
            DataType::Float16 => TypeKind::Float16,
            DataType::Float32 => TypeKind::Float32,
            DataType::Float64 => TypeKind::Float64,
            DataType::BinaryView => TypeKind::BinaryView,
            DataType::Utf8View => TypeKind::Utf8View,
            DataType::FixedSizeBinary(_) => TypeKind::FixedSizeBinary,
            DataType::Decimal(_, _) => TypeKind::Decimal,
            DataType::Decimal256(_, _) => TypeKind::Decimal256,
            DataType::Dictionary(_, _) => TypeKind::Dictionary,
            DataType::List(_) => TypeKind::List,
            DataType::LargeList(_) => TypeKind::LargeList,
            DataType::FixedSizeList(_, _) => TypeKind::FixedSizeList,
            DataType::Struct(_) => TypeKind::Struct,
            DataType::Mapping(_, _) => TypeKind::Mapping,
        }
    }

    /// The tag of this type.
    #[verifier::when_used_as_spec(kind_spec)]
    pub fn kind(&self) -> (k: TypeKind)
        ensures
            k == self.kind_spec(),
    {
        match self {
            DataType::Null => TypeKind::Null,
            DataType::Boolean => TypeKind::Boolean,
            DataType::Int8 => TypeKind::Int8,
            DataType::Int16 => TypeKind::Int16,
            DataType::Int32 => TypeKind::Int32,
            DataType::Int64 => TypeKind::Int64,
            DataType::UInt8 => TypeKind::UInt8,
            DataType::UInt16 => TypeKind::UInt16,
            DataType::UInt32 => TypeKind::UInt32,
            DataType::UInt64 => TypeKind::UInt64,
            DataType::Float16 => TypeKind::Float16,
            DataType::Float32 => TypeKind::Float32,
            DataType::Float64 => TypeKind::Float64,
            DataType::BinaryView => TypeKind::BinaryView,
            DataType::Utf8View => TypeKind::Utf8View,
            DataType::FixedSizeBinary(_) => TypeKind::FixedSizeBinary,
            DataType::Decimal(_, _) => TypeKind::Decimal,
            DataType::Decimal256(_, _) => TypeKind::Decimal256,
            DataType::Dictionary(_, _) => TypeKind::Dictionary,
            DataType::List(_) => TypeKind::List,
            DataType::LargeList(_) => TypeKind::LargeList,
            DataType::FixedSizeList(_, _) => TypeKind::FixedSizeList,
            DataType::Struct(_) => TypeKind::Struct,
            DataType::Mapping(_, _) => TypeKind::Mapping,
        }
    }
}

/// The number of leaf columns under a schema node: one for a primitive, a
/// decimal or a dictionary; that of the single child for a list, a
/// fixed-size list or a map; the sum over the members for a struct.
pub open spec fn leaf_count(dtype: DataType) -> nat
    decreases dtype, 0nat,
{
    match dtype {
        DataType::List(inner) => leaf_count(inner.dtype),
        DataType::LargeList(inner) => leaf_count(inner.dtype),
        DataType::FixedSizeList(inner, _) => leaf_count(inner.dtype),
        DataType::Mapping(inner, _) => leaf_count(inner.dtype),
        DataType::Struct(fields) => leaf_count_of(fields@, fields@.len()),
        _ => 1,
    }
}

/// The number of leaf columns under the first `k` of `fields`.
pub open spec fn leaf_count_of(fields: Seq<Field>, k: nat) -> nat
    decreases fields, k,
{
    if k == 0 || k > fields.len() {
        0
    } else {
        leaf_count_of(fields, (k - 1) as nat) + leaf_count(fields[k - 1].dtype)
    }
}

/// Counts the leaf columns under a schema node; `None` if there are more
/// than a `usize` can count.
pub fn checked_n_columns(dtype: &DataType) -> (n: Option<usize>)
    ensures
        match n {
            Some(n) => n == leaf_count(*dtype),
            None => leaf_count(*dtype) > usize::MAX,
        },
    decreases *dtype,
{
    match dtype {
        DataType::List(inner) => checked_n_columns(&inner.dtype),
        DataType::LargeList(inner) => checked_n_columns(&inner.dtype),
        DataType::FixedSizeList(inner, _) => checked_n_columns(&inner.dtype),
        DataType::Mapping(inner, _) => checked_n_columns(&inner.dtype),
        DataType::Struct(fields) => {
            let mut n: usize = 0;
            let mut k: usize = 0;
            while k < fields.len()
                invariant
                    k <= fields.len(),
                    n == leaf_count_of(fields@, k as nat),
                    *dtype == DataType::Struct(*fields),
                decreases fields.len() - k,
            {
                proof {
                    lemma_leaf_count_of_monotonic(fields@, (k + 1) as nat, fields@.len());
                    assert(decreases_to!(*dtype => dtype->Struct_0));
                    assert(decreases_to!(*fields => fields[k as int]));
                }
                let sum = match checked_n_columns(&fields[k].dtype) {
                    Some(member) => n.checked_add(member),
                    None => None,
                };
                n = match sum {
                    Some(sum) => sum,
                    None => {
                        return None;
                    },
                };
                k = k + 1;
            }
            Some(n)
        },
        _ => Some(1),
    }
}

/// Counts the leaf columns under a schema node.
pub fn n_columns(dtype: &DataType) -> (n: usize)
    requires
        leaf_count(*dtype) <= usize::MAX,
    ensures
        n == leaf_count(*dtype),
{
    match checked_n_columns(dtype) {
        Some(n) => n,
        None => unreached(),
    }
}

/// The count over a prefix grows with the prefix.
pub proof fn lemma_leaf_count_of_monotonic(fields: Seq<Field>, a: nat, b: nat)
    requires
        a <= b <= fields.len(),
    ensures
        leaf_count_of(fields, a) <= leaf_count_of(fields, b),
    decreases b,
{
    if a < b {
        lemma_leaf_count_of_monotonic(fields, a, (b - 1) as nat);
    }
}

impl Field {
    /// Whether this node is marked as a categorical or enum column.
    pub open spec fn is_categorical_or_enum(&self) -> bool {
        self.is_enum || self.is_categorical
    }

    /// The invariant of a schema: a dictionary holds text, a dictionary that
    /// is marked categorical or enum is keyed by unsigned 32-bit integers,
    /// the entries of a map are structs of a key and a value, and every
    /// node below is well formed too.
    pub open spec fn wf(&self) -> bool
        decreases *self,
    {
        match self.dtype {
            DataType::Dictionary(key, value) => {
                &&& *value == DataType::Utf8View
                &&& self.is_categorical_or_enum() ==> key == IntegerType::UInt32
            },
            DataType::List(inner) => inner.wf(),
            DataType::LargeList(inner) => inner.wf(),
            DataType::FixedSizeList(inner, _) => inner.wf(),
            DataType::Mapping(inner, _) => {
                &&& inner.dtype is Struct
                &&& inner.dtype->Struct_0@.len() == 2
                &&& inner.wf()
            },
            DataType::Struct(fields) => forall|i: int|
                0 <= i < fields@.len() ==> (#[trigger] fields@[i]).wf(),
            _ => true,
        }
    }

    /// Tests the invariant of a schema.
    pub fn is_well_formed(&self) -> (b: bool)
        ensures
            b == self.wf(),
        decreases *self,
    {
        match &self.dtype {
            DataType::Dictionary(key, value) => {
                let text = match **value {
                    DataType::Utf8View => true,
                    _ => false,
                };
                let keyed = match key {
                    IntegerType::UInt32 => true,
                    _ => false,
                };
                text && (keyed || !(self.is_enum || self.is_categorical))
            },
            DataType::List(inner) => inner.is_well_formed(),
            DataType::LargeList(inner) => inner.is_well_formed(),
            DataType::FixedSizeList(inner, _) => inner.is_well_formed(),
            DataType::Mapping(inner, _) => {
                let entries = match &inner.dtype {
                    DataType::Struct(fields) => fields.len() == 2,
                    _ => false,
                };
                entries && inner.is_well_formed()
            },
            DataType::Struct(fields) => {
                let mut k: usize = 0;
                while k < fields.len()
                    invariant
                        k <= fields.len(),
                        self.dtype == DataType::Struct(*fields),
                        forall|i: int| 0 <= i < k ==> (#[trigger] fields@[i]).wf(),
                    decreases fields.len() - k,
                {
                    proof {
                        assert(decreases_to!(self.dtype => self.dtype->Struct_0));
                        assert(decreases_to!(*fields => fields[k as int]));
                    }
                    if !fields[k].is_well_formed() {
                        return false;
                    }
                    k = k + 1;
                }
                true
            },
            _ => true,
        }
    }
}

} // verus!
