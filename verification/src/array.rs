//! Array values: flat buffers of leaf values and the containers built over them.

use crate::decimal::Int256;
use crate::nested_utils::validity_view;
use crate::schema::IntegerType;
use vstd::prelude::*;

verus! {

/// The kinds of number that a buffer can hold.  Floating-point values are
/// held as their IEEE 754 bit patterns.
#[derive(Clone, Copy, Debug, PartialEq, Eq, Structural)]
pub enum NumberKind {
    Int8,
    Int16,
    Int32,
    Int64,
    UInt8,
    UInt16,
    UInt32,
    UInt64,
    /// The bit patterns of 32-bit floating-point values.
    Float32,
    /// The bit patterns of 64-bit floating-point values.
    Float64,
    Decimal128,
    Decimal256,
}

/// A densely packed buffer of leaf values.
#[derive(Clone, Debug, PartialEq, Eq)]
pub enum Values {
    /// Values that are all null: only their number is known.
    Null(usize),
    Boolean(Vec<bool>),
    Int8(Vec<i8>),
    Int16(Vec<i16>),
    Int32(Vec<i32>),
    Int64(Vec<i64>),
    UInt8(Vec<u8>),
    UInt16(Vec<u16>),
    UInt32(Vec<u32>),
    UInt64(Vec<u64>),
    /// 32-bit floating-point values, as bit patterns.
    Float32(Vec<u32>),
    /// 64-bit floating-point values, as bit patterns.
    Float64(Vec<u64>),
    Decimal128(Vec<i128>),
    Decimal256(Vec<Int256>),
    /// Binary or text values of any length.
    Binary(Vec<Vec<u8>>),
    /// Byte strings of one width, laid end to end.
    FixedSizeBinary { width: usize, bytes: Vec<u8> },
    /// Text values given as keys into a dictionary of distinct values.
    Categorical { keys: Vec<u32>, dictionary: Vec<Vec<u8>> },
    /// Text values of a dictionary type, stored in line rather than as keys.
    Dictionary { key_type: IntegerType, values: Vec<Vec<u8>> },
}

/// The model of [`Values`].  Every buffer of numbers is a sequence of
/// integers together with its kind.
pub enum ValuesView {
    Null(nat),
    Boolean(Seq<bool>),
    Numbers { kind: NumberKind, values: Seq<int> },
    Binary(Seq<Seq<u8>>),
    FixedSizeBinary { width: nat, bytes: Seq<u8> },
    Categorical { keys: Seq<u32>, dictionary: Seq<Seq<u8>> },
    Dictionary { key_type: IntegerType, values: Seq<Seq<u8>> },
}

/// The integers that the `i8` values are.
pub open spec fn ints_i8(s: Seq<i8>) -> Seq<int> {
    s.map_values(|x: i8| x as int)
}

/// The integers that the `i16` values are.
pub open spec fn ints_i16(s: Seq<i16>) -> Seq<int> {
    s.map_values(|x: i16| x as int)
}

/// The integers that the `i32` values are.
pub open spec fn ints_i32(s: Seq<i32>) -> Seq<int> {
    s.map_values(|x: i32| x as int)
}

/// The integers that the `i64` values are.
pub open spec fn ints_i64(s: Seq<i64>) -> Seq<int> {
    s.map_values(|x: i64| x as int)
}

/// The integers that the `u8` values are.
pub open spec fn ints_u8(s: Seq<u8>) -> Seq<int> {
    s.map_values(|x: u8| x as int)
}

/// The integers that the `u16` values are.
pub open spec fn ints_u16(s: Seq<u16>) -> Seq<int> {
    s.map_values(|x: u16| x as int)
}

/// The integers that the `u32` values are.
pub open spec fn ints_u32(s: Seq<u32>) -> Seq<int> {
    s.map_values(|x: u32| x as int)
}

/// The integers that the `u64` values are.
pub open spec fn ints_u64(s: Seq<u64>) -> Seq<int> {
    s.map_values(|x: u64| x as int)
}

/// The integers that the `i128` values are.
pub open spec fn ints_i128(s: Seq<i128>) -> Seq<int> {
    s.map_values(|x: i128| x as int)
}

/// The integers that the 256-bit values are.
pub open spec fn ints_i256(s: Seq<Int256>) -> Seq<int> {
    s.map_values(|x: Int256| x@)
}

impl View for Values {
    type V = ValuesView;

    open spec fn view(&self) -> ValuesView {
        match *self {
            Values::Null(n) => ValuesView::Null(n as nat),
            Values::Boolean(v) => ValuesView::Boolean(v@),
            Values::Int8(v) => ValuesView::Numbers { kind: NumberKind::Int8, values: ints_i8(v@) },
            Values::Int16(v) => ValuesView::Numbers {
                kind: NumberKind::Int16,
                values: ints_i16(v@),
            },
            Values::Int32(v) => ValuesView::Numbers {
                kind: NumberKind::Int32,
                values: ints_i32(v@),
            },
            Values::Int64(v) => ValuesView::Numbers {
                kind: NumberKind::Int64,
                values: ints_i64(v@),
            },
            Values::UInt8(v) => ValuesView::Numbers { kind: NumberKind::UInt8, values: ints_u8(v@) },
            Values::UInt16(v) => ValuesView::Numbers {
                kind: NumberKind::UInt16,
                values: ints_u16(v@),
            },
            Values::UInt32(v) => ValuesView::Numbers {
                kind: NumberKind::UInt32,
                values: ints_u32(v@),
            },
            Values::UInt64(v) => ValuesView::Numbers {
                kind: NumberKind::UInt64,
                values: ints_u64(v@),
            },
            Values::Float32(v) => ValuesView::Numbers {
                kind: NumberKind::Float32,
                values: ints_u32(v@),
            },
            Values::Float64(v) => ValuesView::Numbers {
                kind: NumberKind::Float64,
                values: ints_u64(v@),
            },
            Values::Decimal128(v) => ValuesView::Numbers {
                kind: NumberKind::Decimal128,
                values: ints_i128(v@),
            },
            Values::Decimal256(v) => ValuesView::Numbers {
                kind: NumberKind::Decimal256,
                values: ints_i256(v@),
            },
            Values::Binary(v) => ValuesView::Binary(v.deep_view()),
            Values::FixedSizeBinary { width, bytes } => ValuesView::FixedSizeBinary {
                width: width as nat,
                bytes: bytes@,
            },
            Values::Categorical { keys, dictionary } => ValuesView::Categorical {
                keys: keys@,
                dictionary: dictionary.deep_view(),
            },
            Values::Dictionary { key_type, values } => ValuesView::Dictionary {
                key_type,
                values: values.deep_view(),
            },
        }
    }
}

impl ValuesView {
    /// The number of values in the buffer.  Byte strings of width zero hold
    /// no bytes, and a buffer of them counts as empty.
    pub open spec fn len(self) -> nat {
        match self {
            ValuesView::Null(n) => n,
            ValuesView::Boolean(v) => v.len(),
            ValuesView::Numbers { values, .. } => values.len(),
            ValuesView::Binary(v) => v.len(),
            ValuesView::FixedSizeBinary { width, bytes } => if width == 0 {
                0
            } else {
                bytes.len() / width
            },
            ValuesView::Categorical { keys, .. } => keys.len(),
            ValuesView::Dictionary { values, .. } => values.len(),
        }
    }
}

impl Values {
    /// The number of values in the buffer.
    pub fn len(&self) -> (n: usize)
        ensures
            n == self@.len(),
    {
        match self {
            Values::Null(n) => *n,
            Values::Boolean(v) => v.len(),
            Values::Int8(v) => v.len(),
            Values::Int16(v) => v.len(),
            Values::Int32(v) => v.len(),
            Values::Int64(v) => v.len(),
            Values::UInt8(v) => v.len(),
            Values::UInt16(v) => v.len(),
            Values::UInt32(v) => v.len(),
            Values::UInt64(v) => v.len(),
            Values::Float32(v) => v.len(),
            Values::Float64(v) => v.len(),
            Values::Decimal128(v) => v.len(),
            Values::Decimal256(v) => v.len(),
            Values::Binary(v) => v.len(),
            Values::FixedSizeBinary { width, bytes } => if *width == 0 {
                0
            } else {
                bytes.len() / *width
            },
            Values::Categorical { keys, .. } => keys.len(),
            Values::Dictionary { values, .. } => values.len(),
        }
    }
}

/// An array value: a leaf buffer, or a container over child arrays.
#[derive(Debug, PartialEq, Eq)]
pub enum Array {
    Leaf { values: Values, validity: Option<Vec<bool>> },
    /// Lists of varying length: list `i` holds the items of `values` from
    /// `offsets[i]` up to `offsets[i + 1]`.
    List { large: bool, offsets: Vec<usize>, values: Box<Array>, validity: Option<Vec<bool>> },
    /// Lists of one length: list `i` holds the items of `values` from
    /// `i * width` up to `(i + 1) * width`.
    FixedSizeList { width: usize, length: usize, values: Box<Array>, validity: Option<Vec<bool>> },
    /// Lists of key/value entries, laid out as the lists of `List` are.
    Mapping { offsets: Vec<usize>, entries: Box<Array>, validity: Option<Vec<bool>> },
    /// Rows of `length` structs, one child array for each member.
    Struct { length: usize, fields: Vec<Array>, validity: Option<Vec<bool>> },
}

/// The model of [`Array`].
pub enum ArrayView {
    Leaf { values: ValuesView, validity: Option<Seq<bool>> },
    List { large: bool, offsets: Seq<usize>, values: Box<ArrayView>, validity: Option<Seq<bool>> },
    FixedSizeList {
        width: usize,
        length: usize,
        values: Box<ArrayView>,
        validity: Option<Seq<bool>>,
    },
    Mapping { offsets: Seq<usize>, entries: Box<ArrayView>, validity: Option<Seq<bool>> },
    Struct { length: usize, fields: Seq<ArrayView>, validity: Option<Seq<bool>> },
}

/// The model of an array.
pub open spec fn array_view(array: Array) -> ArrayView
    decreases array, 0nat,
{
    match array {
        Array::Leaf { values, validity } => ArrayView::Leaf {
            values: values@,
            validity: validity_view(validity),
        },
        Array::List { large, offsets, values, validity } => ArrayView::List {
            large,
            offsets: offsets@,
            values: Box::new(array_view(*values)),
            validity: validity_view(validity),
        },
        Array::FixedSizeList { width, length, values, validity } => ArrayView::FixedSizeList {
            width,
            length,
            values: Box::new(array_view(*values)),
            validity: validity_view(validity),
        },
        Array::Mapping { offsets, entries, validity } => ArrayView::Mapping {
            offsets: offsets@,
            entries: Box::new(array_view(*entries)),
            validity: validity_view(validity),
        },
        Array::Struct { length, fields, validity } => ArrayView::Struct {
            length,
            fields: arrays_view(fields@, fields@.len()),
            validity: validity_view(validity),
        },
    }
}

/// The models of the first `k` of `arrays`.
pub open spec fn arrays_view(arrays: Seq<Array>, k: nat) -> Seq<ArrayView>
    decreases arrays, k,
{
    if k == 0 || k > arrays.len() {
        Seq::empty()
    } else {
        arrays_view(arrays, (k - 1) as nat).push(array_view(arrays[k - 1]))
    }
}

impl View for Array {
    type V = ArrayView;

    open spec fn view(&self) -> ArrayView {
        array_view(*self)
    }
}

/// `arrays_view` is the model of each array in turn.
pub proof fn lemma_arrays_view(arrays: Seq<Array>, k: nat)
    requires
        k <= arrays.len(),
    ensures
        arrays_view(arrays, k).len() == k,
        forall|i: int| 0 <= i < k ==> #[trigger] arrays_view(arrays, k)[i] == array_view(arrays[i]),
    decreases k,
{
    if k > 0 {
        lemma_arrays_view(arrays, (k - 1) as nat);
    }
}

impl ArrayView {
    /// The number of values in the array.
    pub open spec fn len(self) -> nat {
        match self {
            ArrayView::Leaf { values, .. } => values.len(),
            ArrayView::List { offsets, .. } => if offsets.len() == 0 {
                0
            } else {
                (offsets.len() - 1) as nat
            },
            ArrayView::FixedSizeList { length, .. } => length as nat,
            ArrayView::Mapping { offsets, .. } => if offsets.len() == 0 {
                0
            } else {
                (offsets.len() - 1) as nat
            },
            ArrayView::Struct { length, .. } => length as nat,
        }
    }

    /// Where list `i` of an array of lists begins in the child array, for
    /// `i` up to the number of lists, at which the last list ends.  A list
    /// or map array stores its offsets; the offsets of a fixed-size list
    /// are not stored: list `i` begins at `i * width`.
    pub open spec fn list_start(self, i: nat) -> Option<nat> {
        match self {
            ArrayView::List { offsets, .. } => if i < offsets.len() {
                Some(offsets[i as int] as nat)
            } else {
                None
            },
            ArrayView::Mapping { offsets, .. } => if i < offsets.len() {
                Some(offsets[i as int] as nat)
            } else {
                None
            },
            ArrayView::FixedSizeList { width, length, .. } => if i <= length {
                Some(i * (width as nat))
            } else {
                None
            },
            _ => None,
        }
    }
}

impl Array {
    /// The number of values in the array.
    pub fn len(&self) -> (n: usize)
        ensures
            n == self@.len(),
    {
        match self {
            Array::Leaf { values, .. } => values.len(),
            Array::List { offsets, .. } => if offsets.len() == 0 {
                0
            } else {
                offsets.len() - 1
            },
            Array::FixedSizeList { length, .. } => *length,
            Array::Mapping { offsets, .. } => if offsets.len() == 0 {
                0
            } else {
                offsets.len() - 1
            },
            Array::Struct { length, .. } => *length,
        }
    }

    /// Where list `i` of an array of lists begins in the child array.
    /// `None` if the array has no such list, or if the start of a
    /// fixed-size list is beyond `usize`.
    pub fn list_start(&self, i: usize) -> (r: Option<usize>)
        ensures
            match self@.list_start(i as nat) {
                Some(start) => if start <= usize::MAX {
                    r == Some(start as usize)
                } else {
                    r is None
                },
                None => r is None,
            },
    {
        match self {
            Array::List { offsets, .. } => if i < offsets.len() {
                Some(offsets[i])
            } else {
                None
            },
            Array::Mapping { offsets, .. } => if i < offsets.len() {
                Some(offsets[i])
            } else {
                None
            },
            Array::FixedSizeList { width, length, .. } => if i <= *length {
                i.checked_mul(*width)
            } else {
                None
            },
            _ => None,
        }
    }
}

} // verus!
