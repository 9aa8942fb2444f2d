//! Leaf value decoders: the strategies that turn the stored values of one
//! leaf column into the values of its logical type.

use crate::array::{
    ints_i128, ints_i16, ints_i256, ints_i32, ints_i64, ints_i8, ints_u16, ints_u32, ints_u64,
    ints_u8, NumberKind, Values, ValuesView,
};
use crate::decimal::{
    be_signed, convert_i128, convert_i256, i256_from_i128, lemma_pow256_adds,
    lemma_pow256_monotonic, lemma_pow256_values, pow256, Int256,
};
use crate::error::Error;
use crate::nested_utils::NestedState;
use crate::schema::{DataType, Field, IntegerType, PhysicalType};
use vstd::prelude::*;
use vstd::slice::slice_subrange;

verus! {

/// One leaf column as the page-level decoder hands it over: its levels of
/// shape, its values as they are stored, and the validity of those values.
#[derive(Clone, Debug, PartialEq, Eq)]
pub struct LeafColumn {
    pub nested: NestedState,
    pub values: Values,
    pub validity: Option<Vec<bool>>,
}

/// What a column of 32-bit integers can be read as.
#[derive(Clone, Copy, Debug, PartialEq, Eq, Structural)]
pub enum Int32Target {
    Int8,
    Int16,
    Int32,
    UInt8,
    UInt16,
    UInt32,
    Decimal128,
    Decimal256,
}

/// What a column of 64-bit integers can be read as.
#[derive(Clone, Copy, Debug, PartialEq, Eq, Structural)]
pub enum Int64Target {
    Int64,
    UInt32,
    UInt64,
    Decimal128,
    Decimal256,
}

/// The strategy that reads one leaf column.
#[derive(Clone, Copy, Debug, PartialEq, Eq, Structural)]
pub enum LeafDecoder {
    /// Counts the values and keeps none.
    Null,
    Boolean,
    /// Reads 32-bit integers and casts each by value.
    FromInt32(Int32Target),
    /// Reads 64-bit integers and casts each by value.
    FromInt64(Int64Target),
    Float32,
    Float64,
    /// Reads binary or text values as they are.
    Binary,
    /// Reads byte strings of the given width as 128-bit decimals.
    Decimal128(usize),
    /// Reads byte strings of the given width as 256-bit decimals.
    Decimal256(usize),
    /// Reads text and types it as a dictionary keyed by the given integers,
    /// with the values kept in line.
    InlineDictionary(IntegerType),
    /// Reads keys and the dictionary they point into.
    Categorical,
}

impl Int32Target {
    /// The kind of number that the target is.
    pub open spec fn kind(self) -> NumberKind {
        match self {
            Int32Target::Int8 => NumberKind::Int8,
            Int32Target::Int16 => NumberKind::Int16,
            Int32Target::Int32 => NumberKind::Int32,
            Int32Target::UInt8 => NumberKind::UInt8,
            Int32Target::UInt16 => NumberKind::UInt16,
            Int32Target::UInt32 => NumberKind::UInt32,
            Int32Target::Decimal128 => NumberKind::Decimal128,
            Int32Target::Decimal256 => NumberKind::Decimal256,
        }
    }
}

impl Int64Target {
    /// The kind of number that the target is.
    pub open spec fn kind(self) -> NumberKind {
        match self {
            Int64Target::Int64 => NumberKind::Int64,
            Int64Target::UInt32 => NumberKind::UInt32,
            Int64Target::UInt64 => NumberKind::UInt64,
            Int64Target::Decimal128 => NumberKind::Decimal128,
            Int64Target::Decimal256 => NumberKind::Decimal256,
        }
    }
}

impl LeafDecoder {
    /// A decimal decoder reads byte strings no wider than the decimal.
    pub open spec fn wf(self) -> bool {
        match self {
            LeafDecoder::Decimal128(width) => width <= 16,
            LeafDecoder::Decimal256(width) => width <= 32,
            _ => true,
        }
    }
}

/// Whether a schema node is a leaf: anything but a list, a fixed-size list,
/// a map or a struct.
pub open spec fn is_leaf(dtype: DataType) -> bool {
    match dtype {
        DataType::List(_) => false,
        DataType::LargeList(_) => false,
        DataType::FixedSizeList(_, _) => false,
        DataType::Mapping(_, _) => false,
        DataType::Struct(_) => false,
        _ => true,
    }
}

/// The decoder of a leaf whose stored integers must be 32 bits wide.
pub open spec fn from_int32(field: Field, physical: PhysicalType, target: Int32Target) -> Result<
    LeafDecoder,
    Error,
> {
    if physical == PhysicalType::Int32 {
        Ok(LeafDecoder::FromInt32(target))
    } else {
        Err(Error::UnsupportedPhysical { logical: field.dtype.kind_spec(), physical })
    }
}

/// The decoder of a leaf whose stored integers must be 64 bits wide.
pub open spec fn from_int64(field: Field, physical: PhysicalType, target: Int64Target) -> Result<
    LeafDecoder,
    Error,
> {
    if physical == PhysicalType::Int64 {
        Ok(LeafDecoder::FromInt64(target))
    } else {
        Err(Error::UnsupportedPhysical { logical: field.dtype.kind_spec(), physical })
    }
}

/// The decoder of a leaf that is read as it is stored, if it is stored as `expected`.
pub open spec fn stored_as(
    field: Field,
    physical: PhysicalType,
    expected: PhysicalType,
    decoder: LeafDecoder,
) -> Result<LeafDecoder, Error> {
    if physical == expected {
        Ok(decoder)
    } else {
        Err(Error::UnsupportedPhysical { logical: field.dtype.kind_spec(), physical })
    }
}

/// The decoder of a decimal whose integer is `max_width` bytes wide.
pub open spec fn decimal_decoder(
    field: Field,
    physical: PhysicalType,
    max_width: usize,
    from32: Int32Target,
    from64: Int64Target,
) -> Result<LeafDecoder, Error> {
    match physical {
        PhysicalType::Int32 => Ok(LeafDecoder::FromInt32(from32)),
        PhysicalType::Int64 => Ok(LeafDecoder::FromInt64(from64)),
        PhysicalType::FixedLenByteArray(width) => if width > max_width {
            Err(Error::DecimalWidth { logical: field.dtype.kind_spec(), width })
        } else if max_width == 16 {
            Ok(LeafDecoder::Decimal128(width))
        } else {
            Ok(LeafDecoder::Decimal256(width))
        },
        _ => Err(Error::UnsupportedPhysical { logical: field.dtype.kind_spec(), physical }),
    }
}

/// The table of logical types against physical storage: the decoder that
/// reads a leaf of the given logical type from the given storage, or why
/// there is none.
///
/// An unsigned 32-bit column may be stored as 32-bit or as 64-bit signed
/// integers.  A decimal may be stored as 32-bit or 64-bit integers, or as
/// byte strings no wider than itself.  A dictionary that is not marked as
/// categorical or enum is text, whatever its key type.
pub open spec fn leaf_decoder(field: Field, physical: PhysicalType) -> Result<LeafDecoder, Error> {
    match field.dtype {
        DataType::Null => Ok(LeafDecoder::Null),
        DataType::Boolean => stored_as(field, physical, PhysicalType::Boolean, LeafDecoder::Boolean),
        DataType::Int8 => from_int32(field, physical, Int32Target::Int8),
        DataType::Int16 => from_int32(field, physical, Int32Target::Int16),
        DataType::Int32 => from_int32(field, physical, Int32Target::Int32),
        DataType::Int64 => from_int64(field, physical, Int64Target::Int64),
        DataType::UInt8 => from_int32(field, physical, Int32Target::UInt8),
        DataType::UInt16 => from_int32(field, physical, Int32Target::UInt16),
        DataType::UInt32 => match physical {
            PhysicalType::Int32 => Ok(LeafDecoder::FromInt32(Int32Target::UInt32)),
            PhysicalType::Int64 => Ok(LeafDecoder::FromInt64(Int64Target::UInt32)),
            _ => Err(Error::UnsupportedPhysical { logical: field.dtype.kind_spec(), physical }),
        },
        DataType::UInt64 => from_int64(field, physical, Int64Target::UInt64),
        DataType::Float32 => stored_as(field, physical, PhysicalType::Float, LeafDecoder::Float32),
        DataType::Float64 => stored_as(field, physical, PhysicalType::Double, LeafDecoder::Float64),
        DataType::BinaryView => stored_as(
            field,
            physical,
            PhysicalType::ByteArray,
            LeafDecoder::Binary,
        ),
        DataType::Utf8View => stored_as(field, physical, PhysicalType::ByteArray, LeafDecoder::Binary),
        DataType::Decimal(_, _) => decimal_decoder(
            field,
            physical,
            16,
            Int32Target::Decimal128,
            Int64Target::Decimal128,
        ),
        DataType::Decimal256(_, _) => decimal_decoder(
            field,
            physical,
            32,
            Int32Target::Decimal256,
            Int64Target::Decimal256,
        ),
        DataType::Dictionary(key, _) => if field.is_categorical_or_enum() {
            stored_as(field, physical, PhysicalType::ByteArray, LeafDecoder::Categorical)
        } else {
            stored_as(field, physical, PhysicalType::ByteArray, LeafDecoder::InlineDictionary(key))
        },
        _ => Err(Error::UnsupportedType(field.dtype.kind_spec())),
    }
}

/// Picks the decoder of a leaf from its logical type and its physical storage.
pub fn select_decoder(field: &Field, physical: PhysicalType) -> (r: Result<LeafDecoder, Error>)
    requires
        field.wf(),
    ensures
        r == leaf_decoder(*field, physical),
        r matches Ok(decoder) ==> decoder.wf(),
{
    let logical = field.dtype.kind();
    let unsupported: Result<LeafDecoder, Error> = Err(
        Error::UnsupportedPhysical { logical, physical },
    );
    match &field.dtype {
        DataType::Null => Ok(LeafDecoder::Null),
        DataType::Boolean => match physical {
            PhysicalType::Boolean => Ok(LeafDecoder::Boolean),
            _ => unsupported,
        },
        DataType::Int8 => match physical {
            PhysicalType::Int32 => Ok(LeafDecoder::FromInt32(Int32Target::Int8)),
            _ => unsupported,
        },
        DataType::Int16 => match physical {
            PhysicalType::Int32 => Ok(LeafDecoder::FromInt32(Int32Target::Int16)),
            _ => unsupported,
        },
        DataType::Int32 => match physical {
            PhysicalType::Int32 => Ok(LeafDecoder::FromInt32(Int32Target::Int32)),
            _ => unsupported,
        },
        DataType::Int64 => match physical {
            PhysicalType::Int64 => Ok(LeafDecoder::FromInt64(Int64Target::Int64)),
            _ => unsupported,
        },
        DataType::UInt8 => match physical {
            PhysicalType::Int32 => Ok(LeafDecoder::FromInt32(Int32Target::UInt8)),
            _ => unsupported,
        },
        DataType::UInt16 => match physical {
            PhysicalType::Int32 => Ok(LeafDecoder::FromInt32(Int32Target::UInt16)),
            _ => unsupported,
        },
        DataType::UInt32 => match physical {
            PhysicalType::Int32 => Ok(LeafDecoder::FromInt32(Int32Target::UInt32)),
            // Some writers store unsigned 32-bit values as 64-bit integers.
            PhysicalType::Int64 => Ok(LeafDecoder::FromInt64(Int64Target::UInt32)),
            _ => unsupported,
        },
        DataType::UInt64 => match physical {
            PhysicalType::Int64 => Ok(LeafDecoder::FromInt64(Int64Target::UInt64)),
            _ => unsupported,
        },
        DataType::Float32 => match physical {
            PhysicalType::Float => Ok(LeafDecoder::Float32),
            _ => unsupported,
        },
        DataType::Float64 => match physical {
            PhysicalType::Double => Ok(LeafDecoder::Float64),
            _ => unsupported,
        },
        DataType::BinaryView => match physical {
            PhysicalType::ByteArray => Ok(LeafDecoder::Binary),
            _ => unsupported,
        },
        DataType::Utf8View => match physical {
            PhysicalType::ByteArray => Ok(LeafDecoder::Binary),
            _ => unsupported,
        },
        DataType::Decimal(_, _) => match physical {
            PhysicalType::Int32 => Ok(LeafDecoder::FromInt32(Int32Target::Decimal128)),
            PhysicalType::Int64 => Ok(LeafDecoder::FromInt64(Int64Target::Decimal128)),
            PhysicalType::FixedLenByteArray(width) => if width > 16 {
                Err(Error::DecimalWidth { logical, width })
            } else {
                Ok(LeafDecoder::Decimal128(width))
            },
            _ => unsupported,
        },
        DataType::Decimal256(_, _) => match physical {
            PhysicalType::Int32 => Ok(LeafDecoder::FromInt32(Int32Target::Decimal256)),
            PhysicalType::Int64 => Ok(LeafDecoder::FromInt64(Int64Target::Decimal256)),
            PhysicalType::FixedLenByteArray(width) => if width > 32 {
                Err(Error::DecimalWidth { logical, width })
            } else {
                Ok(LeafDecoder::Decimal256(width))
            },
            _ => unsupported,
        },
        DataType::Dictionary(key, _) => match physical {
            PhysicalType::ByteArray => if field.is_enum || field.is_categorical {
                Ok(LeafDecoder::Categorical)
            } else {
                Ok(LeafDecoder::InlineDictionary(*key))
            },
            _ => unsupported,
        },
        _ => Err(Error::UnsupportedType(logical)),
    }
}

/// The range of values of each kind of number.
pub open spec fn in_range(kind: NumberKind, v: int) -> bool {
    match kind {
        NumberKind::Int8 => i8::MIN <= v <= i8::MAX,
        NumberKind::Int16 => i16::MIN <= v <= i16::MAX,
        NumberKind::Int32 => i32::MIN <= v <= i32::MAX,
        NumberKind::Int64 => i64::MIN <= v <= i64::MAX,
        NumberKind::UInt8 => 0 <= v <= u8::MAX,
        NumberKind::UInt16 => 0 <= v <= u16::MAX,
        NumberKind::UInt32 => 0 <= v <= u32::MAX,
        NumberKind::UInt64 => 0 <= v <= u64::MAX,
        NumberKind::Float32 => 0 <= v <= u32::MAX,
        NumberKind::Float64 => 0 <= v <= u64::MAX,
        NumberKind::Decimal128 => i128::MIN <= v <= i128::MAX,
        NumberKind::Decimal256 => -(pow256(32) as int) <= 2 * v < pow256(32),
    }
}

/// Whether every value lies in the range of the kind.
pub open spec fn all_in_range(kind: NumberKind, values: Seq<int>) -> bool {
    forall|i: int| 0 <= i < values.len() ==> in_range(kind, #[trigger] values[i])
}

/// A cast by value: the numbers stay what they are and take the new kind
/// if all of them fit it.  A number out of range fails the whole column;
/// none is wrapped, clamped or reinterpreted.
pub open spec fn cast(kind: NumberKind, values: Seq<int>) -> Result<ValuesView, Error> {
    if all_in_range(kind, values) {
        Ok(ValuesView::Numbers { kind, values })
    } else {
        Err(Error::ValueOutOfRange(kind))
    }
}

/// The decimals that byte strings of one width spell, each read as a
/// big-endian two's-complement number.
pub open spec fn decimal_values(bytes: Seq<u8>, width: nat) -> Seq<int> {
    Seq::new(
        if width == 0 {
            0
        } else {
            bytes.len() / width
        },
        |i: int| be_signed(bytes.subrange(i * width, (i + 1) * width)),
    )
}

/// Whether `bytes` is made of whole byte strings of the given width.
pub open spec fn whole_chunks(bytes: Seq<u8>, width: nat) -> bool {
    if width == 0 {
        bytes.len() == 0
    } else {
        bytes.len() % width == 0
    }
}

/// Whether the values are stored as the decoder reads them.
pub open spec fn decoder_reads(decoder: LeafDecoder, values: ValuesView) -> bool {
    match decoder {
        LeafDecoder::Null => true,
        LeafDecoder::Boolean => values is Boolean,
        LeafDecoder::FromInt32(_) => values matches ValuesView::Numbers { kind, .. } && kind
            == NumberKind::Int32,
        LeafDecoder::FromInt64(_) => values matches ValuesView::Numbers { kind, .. } && kind
            == NumberKind::Int64,
        LeafDecoder::Float32 => values matches ValuesView::Numbers { kind, .. } && kind
            == NumberKind::Float32,
        LeafDecoder::Float64 => values matches ValuesView::Numbers { kind, .. } && kind
            == NumberKind::Float64,
        LeafDecoder::Binary => values is Binary,
        LeafDecoder::Decimal128(expected) => values matches ValuesView::FixedSizeBinary {
            width,
            bytes,
        } && width == expected && whole_chunks(bytes, width),
        LeafDecoder::Decimal256(expected) => values matches ValuesView::FixedSizeBinary {
            width,
            bytes,
        } && width == expected && whole_chunks(bytes, width),
        LeafDecoder::InlineDictionary(_) => values is Binary,
        LeafDecoder::Categorical => values is Categorical,
    }
}

/// What a decoder makes of stored values.
pub open spec fn decode_values(decoder: LeafDecoder, values: ValuesView) -> Result<
    ValuesView,
    Error,
> {
    if !decoder_reads(decoder, values) {
        Err(Error::MalformedColumn)
    } else {
        match decoder {
            LeafDecoder::Null => Ok(ValuesView::Null(values.len())),
            LeafDecoder::Boolean => Ok(values),
            LeafDecoder::FromInt32(target) => cast(target.kind(), values->Numbers_values),
            LeafDecoder::FromInt64(target) => cast(target.kind(), values->Numbers_values),
            LeafDecoder::Float32 => Ok(values),
            LeafDecoder::Float64 => Ok(values),
            LeafDecoder::Binary => Ok(values),
            LeafDecoder::Decimal128(width) => Ok(
                ValuesView::Numbers {
                    kind: NumberKind::Decimal128,
                    values: decimal_values(values->FixedSizeBinary_bytes, width as nat),
                },
            ),
            LeafDecoder::Decimal256(width) => Ok(
                ValuesView::Numbers {
                    kind: NumberKind::Decimal256,
                    values: decimal_values(values->FixedSizeBinary_bytes, width as nat),
                },
            ),
            LeafDecoder::InlineDictionary(key_type) => Ok(
                ValuesView::Dictionary { key_type, values: values->Binary_0 },
            ),
            LeafDecoder::Categorical => Ok(values),
        }
    }
}

/// The model of the outcome of a decoder.
pub open spec fn values_result_view(r: Result<Values, Error>) -> Result<ValuesView, Error> {
    match r {
        Ok(values) => Ok(values@),
        Err(e) => Err(e),
    }
}

/// Casts each `i32` to `i8` by value; `None` if one of them does not fit.
fn narrow_i32_to_i8(src: &Vec<i32>) -> (r: Option<Vec<i8>>)
    ensures
        r matches Some(out) ==> ints_i8(out@) == ints_i32(src@),
        r is Some <==> all_in_range(NumberKind::Int8, ints_i32(src@)),
{
    let mut out: Vec<i8> = Vec::with_capacity(src.len());
    let mut i: usize = 0;
    while i < src.len()
        invariant
            i <= src.len(),
            out@.len() == i,
            forall|j: int| 0 <= j < i ==> out@[j] as int == src@[j] as int,
        decreases src.len() - i,
    {
        let x: i32 = src[i];
        if x < -128 || x > 127 {
            assert(!in_range(NumberKind::Int8, ints_i32(src@)[i as int]));
            return None;
        }
        out.push(x as i8);
        i = i + 1;
    }
    assert(ints_i8(out@) =~= ints_i32(src@));
    assert forall|j: int| 0 <= j < src@.len() implies in_range(
        NumberKind::Int8,
        #[trigger] ints_i32(src@)[j],
    ) by {
        assert(out@[j] as int == src@[j] as int);
    }
    Some(out)
}

/// Casts each `i32` to `i16` by value; `None` if one of them does not fit.
fn narrow_i32_to_i16(src: &Vec<i32>) -> (r: Option<Vec<i16>>)
    ensures
        r matches Some(out) ==> ints_i16(out@) == ints_i32(src@),
        r is Some <==> all_in_range(NumberKind::Int16, ints_i32(src@)),
{
    let mut out: Vec<i16> = Vec::with_capacity(src.len());
    let mut i: usize = 0;
    while i < src.len()
        invariant
            i <= src.len(),
            out@.len() == i,
            forall|j: int| 0 <= j < i ==> out@[j] as int == src@[j] as int,
        decreases src.len() - i,
    {
        let x: i32 = src[i];
        if x < -32768 || x > 32767 {
            assert(!in_range(NumberKind::Int16, ints_i32(src@)[i as int]));
            return None;
        }
        out.push(x as i16);
        i = i + 1;
    }
    assert(ints_i16(out@) =~= ints_i32(src@));
    assert forall|j: int| 0 <= j < src@.len() implies in_range(
        NumberKind::Int16,
        #[trigger] ints_i32(src@)[j],
    ) by {
        assert(out@[j] as int == src@[j] as int);
    }
    Some(out)
}

/// Casts each `i32` to `u8` by value; `None` if one of them does not fit.
fn narrow_i32_to_u8(src: &Vec<i32>) -> (r: Option<Vec<u8>>)
    ensures
        r matches Some(out) ==> ints_u8(out@) == ints_i32(src@),
        r is Some <==> all_in_range(NumberKind::UInt8, ints_i32(src@)),
{
    let mut out: Vec<u8> = Vec::with_capacity(src.len());
    let mut i: usize = 0;
    while i < src.len()
        invariant
            i <= src.len(),
            out@.len() == i,
            forall|j: int| 0 <= j < i ==> out@[j] as int == src@[j] as int,
        decreases src.len() - i,
    {
        let x: i32 = src[i];
        if x < 0 || x > 255 {
            assert(!in_range(NumberKind::UInt8, ints_i32(src@)[i as int]));
            return None;
        }
        out.push(x as u8);
        i = i + 1;
    }
    assert(ints_u8(out@) =~= ints_i32(src@));
    assert forall|j: int| 0 <= j < src@.len() implies in_range(
        NumberKind::UInt8,
        #[trigger] ints_i32(src@)[j],
    ) by {
        assert(out@[j] as int == src@[j] as int);
    }
    Some(out)
}

/// Casts each `i32` to `u16` by value; `None` if one of them does not fit.
fn narrow_i32_to_u16(src: &Vec<i32>) -> (r: Option<Vec<u16>>)
    ensures
        r matches Some(out) ==> ints_u16(out@) == ints_i32(src@),
        r is Some <==> all_in_range(NumberKind::UInt16, ints_i32(src@)),
{
    let mut out: Vec<u16> = Vec::with_capacity(src.len());
    let mut i: usize = 0;
    while i < src.len()
        invariant
            i <= src.len(),
            out@.len() == i,
            forall|j: int| 0 <= j < i ==> out@[j] as int == src@[j] as int,
        decreases src.len() - i,
    {
        let x: i32 = src[i];
        if x < 0 || x > 65535 {
            assert(!in_range(NumberKind::UInt16, ints_i32(src@)[i as int]));
            return None;
        }
        out.push(x as u16);
        i = i + 1;
    }
    assert(ints_u16(out@) =~= ints_i32(src@));
    assert forall|j: int| 0 <= j < src@.len() implies in_range(
        NumberKind::UInt16,
        #[trigger] ints_i32(src@)[j],
    ) by {
        assert(out@[j] as int == src@[j] as int);
    }
    Some(out)
}

/// Casts each `i32` to `u32` by value; `None` if one of them does not fit.
fn narrow_i32_to_u32(src: &Vec<i32>) -> (r: Option<Vec<u32>>)
    ensures
        r matches Some(out) ==> ints_u32(out@) == ints_i32(src@),
        r is Some <==> all_in_range(NumberKind::UInt32, ints_i32(src@)),
{
    let mut out: Vec<u32> = Vec::with_capacity(src.len());
    let mut i: usize = 0;
    while i < src.len()
        invariant
            i <= src.len(),
            out@.len() == i,
            forall|j: int| 0 <= j < i ==> out@[j] as int == src@[j] as int,
        decreases src.len() - i,
    {
        let x: i32 = src[i];
        if x < 0 {
            assert(!in_range(NumberKind::UInt32, ints_i32(src@)[i as int]));
            return None;
        }
        out.push(x as u32);
        i = i + 1;
    }
    assert(ints_u32(out@) =~= ints_i32(src@));
    assert forall|j: int| 0 <= j < src@.len() implies in_range(
        NumberKind::UInt32,
        #[trigger] ints_i32(src@)[j],
    ) by {
        assert(out@[j] as int == src@[j] as int);
    }
    Some(out)
}

/// Casts each `i64` to `u32` by value; `None` if one of them does not fit.
fn narrow_i64_to_u32(src: &Vec<i64>) -> (r: Option<Vec<u32>>)
    ensures
        r matches Some(out) ==> ints_u32(out@) == ints_i64(src@),
        r is Some <==> all_in_range(NumberKind::UInt32, ints_i64(src@)),
{
    let mut out: Vec<u32> = Vec::with_capacity(src.len());
    let mut i: usize = 0;
    while i < src.len()
        invariant
            i <= src.len(),
            out@.len() == i,
            forall|j: int| 0 <= j < i ==> out@[j] as int == src@[j] as int,
        decreases src.len() - i,
    {
        let x: i64 = src[i];
        if x < 0 || x > 4294967295 {
            assert(!in_range(NumberKind::UInt32, ints_i64(src@)[i as int]));
            return None;
        }
        out.push(x as u32);
        i = i + 1;
    }
    assert(ints_u32(out@) =~= ints_i64(src@));
    assert forall|j: int| 0 <= j < src@.len() implies in_range(
        NumberKind::UInt32,
        #[trigger] ints_i64(src@)[j],
    ) by {
        assert(out@[j] as int == src@[j] as int);
    }
    Some(out)
}

/// Casts each `i64` to `u64` by value; `None` if one of them does not fit.
fn narrow_i64_to_u64(src: &Vec<i64>) -> (r: Option<Vec<u64>>)
    ensures
        r matches Some(out) ==> ints_u64(out@) == ints_i64(src@),
        r is Some <==> all_in_range(NumberKind::UInt64, ints_i64(src@)),
{
    let mut out: Vec<u64> = Vec::with_capacity(src.len());
    let mut i: usize = 0;
    while i < src.len()
        invariant
            i <= src.len(),
            out@.len() == i,
            forall|j: int| 0 <= j < i ==> out@[j] as int == src@[j] as int,
        decreases src.len() - i,
    {
        let x: i64 = src[i];
        if x < 0 {
            assert(!in_range(NumberKind::UInt64, ints_i64(src@)[i as int]));
            return None;
        }
        out.push(x as u64);
        i = i + 1;
    }
    assert(ints_u64(out@) =~= ints_i64(src@));
    assert forall|j: int| 0 <= j < src@.len() implies in_range(
        NumberKind::UInt64,
        #[trigger] ints_i64(src@)[j],
    ) by {
        assert(out@[j] as int == src@[j] as int);
    }
    Some(out)
}

/// Widens each `i32` to a 128-bit decimal; every value fits.
fn widen_i32_to_i128(src: &Vec<i32>) -> (out: Vec<i128>)
    ensures
        ints_i128(out@) == ints_i32(src@),
        all_in_range(NumberKind::Decimal128, ints_i32(src@)),
{
    let mut out: Vec<i128> = Vec::with_capacity(src.len());
    let mut i: usize = 0;
    while i < src.len()
        invariant
            i <= src.len(),
            out@.len() == i,
            forall|j: int| 0 <= j < i ==> out@[j] as int == src@[j] as int,
        decreases src.len() - i,
    {
        let x: i32 = src[i];
        out.push(x as i128);
        i = i + 1;
    }
    assert(ints_i128(out@) =~= ints_i32(src@));
    out
}

/// Widens each `i32` to a 256-bit decimal; every value fits.
fn widen_i32_to_i256(src: &Vec<i32>) -> (out: Vec<Int256>)
    ensures
        ints_i256(out@) == ints_i32(src@),
        all_in_range(NumberKind::Decimal256, ints_i32(src@)),
{
    let mut out: Vec<Int256> = Vec::with_capacity(src.len());
    let mut i: usize = 0;
    while i < src.len()
        invariant
            i <= src.len(),
            out@.len() == i,
            forall|j: int| 0 <= j < i ==> out@[j]@ == src@[j] as int,
        decreases src.len() - i,
    {
        let x: i32 = src[i];
        out.push(i256_from_i128(x as i128));
        i = i + 1;
    }
    assert(ints_i256(out@) =~= ints_i32(src@));
    proof {
        lemma_pow256_values();
        lemma_pow256_adds(16, 16);
        assert(pow256(32) >= pow256(16)) by {
            lemma_pow256_monotonic(16, 32);
        }
    }
    out
}

/// Widens each `i64` to a 128-bit decimal; every value fits.
fn widen_i64_to_i128(src: &Vec<i64>) -> (out: Vec<i128>)
    ensures
        ints_i128(out@) == ints_i64(src@),
        all_in_range(NumberKind::Decimal128, ints_i64(src@)),
{
    let mut out: Vec<i128> = Vec::with_capacity(src.len());
    let mut i: usize = 0;
    while i < src.len()
        invariant
            i <= src.len(),
            out@.len() == i,
            forall|j: int| 0 <= j < i ==> out@[j] as int == src@[j] as int,
        decreases src.len() - i,
    {
        let x: i64 = src[i];
        out.push(x as i128);
        i = i + 1;
    }
    assert(ints_i128(out@) =~= ints_i64(src@));
    out
}

/// Widens each `i64` to a 256-bit decimal; every value fits.
fn widen_i64_to_i256(src: &Vec<i64>) -> (out: Vec<Int256>)
    ensures
        ints_i256(out@) == ints_i64(src@),
        all_in_range(NumberKind::Decimal256, ints_i64(src@)),
{
    let mut out: Vec<Int256> = Vec::with_capacity(src.len());
    let mut i: usize = 0;
    while i < src.len()
        invariant
            i <= src.len(),
            out@.len() == i,
            forall|j: int| 0 <= j < i ==> out@[j]@ == src@[j] as int,
        decreases src.len() - i,
    {
        let x: i64 = src[i];
        out.push(i256_from_i128(x as i128));
        i = i + 1;
    }
    assert(ints_i256(out@) =~= ints_i64(src@));
    proof {
        lemma_pow256_values();
        lemma_pow256_adds(16, 16);
        assert(pow256(32) >= pow256(16)) by {
            lemma_pow256_monotonic(16, 32);
        }
    }
    out
}

/// Start and end of chunk `i` lie inside `n` chunks of the given width.
proof fn lemma_chunk_bounds(i: int, n: int, width: int)
    requires
        0 <= i < n,
        0 < width,
    ensures
        0 <= i * width,
        (i + 1) * width == i * width + width,
        (i + 1) * width <= n * width,
{
    assert((i + 1) * width == i * width + width) by (nonlinear_arith);
    assert(0 <= i * width) by (nonlinear_arith)
        requires
            0 <= i,
            0 < width,
    ;
    assert((i + 1) * width <= n * width) by (nonlinear_arith)
        requires
            i + 1 <= n,
            0 < width,
    ;
}

/// Whole chunks fill the bytes exactly.
proof fn lemma_whole_chunks(len: int, width: int)
    requires
        0 <= len,
        0 < width,
        len % width == 0,
    ensures
        (len / width) * width == len,
        0 <= len / width,
{
    assert((len / width) * width == len && 0 <= len / width) by (nonlinear_arith)
        requires
            0 <= len,
            0 < width,
            len % width == 0,
    ;
}

/// Reads byte strings of one width as 128-bit decimals.
fn decimals_from_bytes(bytes: &Vec<u8>, width: usize) -> (out: Vec<i128>)
    requires
        0 < width <= 16,
        bytes@.len() % (width as nat) == 0,
    ensures
        ints_i128(out@) == decimal_values(bytes@, width as nat),
{
    let n: usize = bytes.len() / width;
    proof {
        lemma_whole_chunks(bytes@.len() as int, width as int);
    }
    let mut out: Vec<i128> = Vec::with_capacity(n);
    let mut i: usize = 0;
    let mut start: usize = 0;
    while i < n
        invariant
            i <= n,
            0 < width <= 16,
            n * width == bytes@.len(),
            bytes@.len() == bytes.len(),
            n == bytes@.len() / (width as nat),
            start == i * width,
            out@.len() == i,
            forall|j: int| 0 <= j < i ==> out@[j] as int == decimal_values(bytes@, width as nat)[j],
        decreases n - i,
    {
        proof {
            lemma_chunk_bounds(i as int, n as int, width as int);
        }
        let chunk = slice_subrange(bytes.as_slice(), start, start + width);
        out.push(convert_i128(chunk, width));
        i = i + 1;
        start = start + width;
    }
    assert(ints_i128(out@) =~= decimal_values(bytes@, width as nat));
    out
}

/// Reads byte strings of one width as 256-bit decimals.  Up to 16 bytes a
/// value is read as a 128-bit integer and widened; beyond that it is read
/// in 256 bits.
fn wide_decimals_from_bytes(bytes: &Vec<u8>, width: usize) -> (out: Vec<Int256>)
    requires
        0 < width <= 32,
        bytes@.len() % (width as nat) == 0,
    ensures
        ints_i256(out@) == decimal_values(bytes@, width as nat),
{
    let n: usize = bytes.len() / width;
    proof {
        lemma_whole_chunks(bytes@.len() as int, width as int);
    }
    let mut out: Vec<Int256> = Vec::with_capacity(n);
    let mut i: usize = 0;
    let mut start: usize = 0;
    while i < n
        invariant
            i <= n,
            0 < width <= 32,
            n * width == bytes@.len(),
            bytes@.len() == bytes.len(),
            n == bytes@.len() / (width as nat),
            start == i * width,
            out@.len() == i,
            forall|j: int| 0 <= j < i ==> out@[j]@ == decimal_values(bytes@, width as nat)[j],
        decreases n - i,
    {
        proof {
            lemma_chunk_bounds(i as int, n as int, width as int);
        }
        let chunk = slice_subrange(bytes.as_slice(), start, start + width);
        let value: Int256 = if width <= 16 {
            i256_from_i128(convert_i128(chunk, width))
        } else {
            convert_i256(chunk)
        };
        out.push(value);
        i = i + 1;
        start = start + width;
    }
    assert(ints_i256(out@) =~= decimal_values(bytes@, width as nat));
    out
}

/// Whether `bytes` is made of whole byte strings of the given width.
fn has_whole_chunks(bytes: &Vec<u8>, width: usize) -> (r: bool)
    ensures
        r == whole_chunks(bytes@, width as nat),
{
    if width == 0 {
        bytes.len() == 0
    } else {
        bytes.len() % width == 0
    }
}

/// Reads a column of 32-bit integers as the target kind.
fn decode_int32(target: Int32Target, src: Vec<i32>) -> (r: Result<Values, Error>)
    ensures
        values_result_view(r) == cast(target.kind(), ints_i32(src@)),
{
    match target {
        Int32Target::Int8 => match narrow_i32_to_i8(&src) {
            Some(out) => Ok(Values::Int8(out)),
            None => Err(Error::ValueOutOfRange(NumberKind::Int8)),
        },
        Int32Target::Int16 => match narrow_i32_to_i16(&src) {
            Some(out) => Ok(Values::Int16(out)),
            None => Err(Error::ValueOutOfRange(NumberKind::Int16)),
        },
        Int32Target::Int32 => Ok(Values::Int32(src)),
        Int32Target::UInt8 => match narrow_i32_to_u8(&src) {
            Some(out) => Ok(Values::UInt8(out)),
            None => Err(Error::ValueOutOfRange(NumberKind::UInt8)),
        },
        Int32Target::UInt16 => match narrow_i32_to_u16(&src) {
            Some(out) => Ok(Values::UInt16(out)),
            None => Err(Error::ValueOutOfRange(NumberKind::UInt16)),
        },
        Int32Target::UInt32 => match narrow_i32_to_u32(&src) {
            Some(out) => Ok(Values::UInt32(out)),
            None => Err(Error::ValueOutOfRange(NumberKind::UInt32)),
        },
        Int32Target::Decimal128 => Ok(Values::Decimal128(widen_i32_to_i128(&src))),
        Int32Target::Decimal256 => Ok(Values::Decimal256(widen_i32_to_i256(&src))),
    }
}

/// Reads a column of 64-bit integers as the target kind.
fn decode_int64(target: Int64Target, src: Vec<i64>) -> (r: Result<Values, Error>)
    ensures
        values_result_view(r) == cast(target.kind(), ints_i64(src@)),
{
    match target {
        Int64Target::Int64 => Ok(Values::Int64(src)),
        Int64Target::UInt32 => match narrow_i64_to_u32(&src) {
            Some(out) => Ok(Values::UInt32(out)),
            None => Err(Error::ValueOutOfRange(NumberKind::UInt32)),
        },
        Int64Target::UInt64 => match narrow_i64_to_u64(&src) {
            Some(out) => Ok(Values::UInt64(out)),
            None => Err(Error::ValueOutOfRange(NumberKind::UInt64)),
        },
        Int64Target::Decimal128 => Ok(Values::Decimal128(widen_i64_to_i128(&src))),
        Int64Target::Decimal256 => Ok(Values::Decimal256(widen_i64_to_i256(&src))),
    }
}

/// Applies a decoder to the stored values of a leaf column.
pub fn decode(decoder: LeafDecoder, values: Values) -> (r: Result<Values, Error>)
    requires
        decoder.wf(),
    ensures
        values_result_view(r) == decode_values(decoder, values@),
{
    match decoder {
        LeafDecoder::Null => Ok(Values::Null(values.len())),
        LeafDecoder::Boolean => match values {
            Values::Boolean(v) => Ok(Values::Boolean(v)),
            _ => Err(Error::MalformedColumn),
        },
        LeafDecoder::FromInt32(target) => match values {
            Values::Int32(v) => decode_int32(target, v),
            _ => Err(Error::MalformedColumn),
        },
        LeafDecoder::FromInt64(target) => match values {
            Values::Int64(v) => decode_int64(target, v),
            _ => Err(Error::MalformedColumn),
        },
        LeafDecoder::Float32 => match values {
            Values::Float32(v) => Ok(Values::Float32(v)),
            _ => Err(Error::MalformedColumn),
        },
        LeafDecoder::Float64 => match values {
            Values::Float64(v) => Ok(Values::Float64(v)),
            _ => Err(Error::MalformedColumn),
        },
        LeafDecoder::Binary => match values {
            Values::Binary(v) => Ok(Values::Binary(v)),
            _ => Err(Error::MalformedColumn),
        },
        LeafDecoder::Decimal128(expected) => match values {
            Values::FixedSizeBinary { width, bytes } => {
                if width != expected || !has_whole_chunks(&bytes, width) {
                    Err(Error::MalformedColumn)
                } else if width == 0 {
                    let out: Vec<i128> = Vec::new();
                    assert(ints_i128(out@) =~= decimal_values(bytes@, 0));
                    Ok(Values::Decimal128(out))
                } else {
                    Ok(Values::Decimal128(decimals_from_bytes(&bytes, width)))
                }
            },
            _ => Err(Error::MalformedColumn),
        },
        LeafDecoder::Decimal256(expected) => match values {
            Values::FixedSizeBinary { width, bytes } => {
                if width != expected || !has_whole_chunks(&bytes, width) {
                    Err(Error::MalformedColumn)
                } else if width == 0 {
                    let out: Vec<Int256> = Vec::new();
                    assert(ints_i256(out@) =~= decimal_values(bytes@, 0));
                    Ok(Values::Decimal256(out))
                } else {
                    Ok(Values::Decimal256(wide_decimals_from_bytes(&bytes, width)))
                }
            },
            _ => Err(Error::MalformedColumn),
        },
        LeafDecoder::InlineDictionary(key_type) => match values {
            Values::Binary(v) => Ok(Values::Dictionary { key_type, values: v }),
            _ => Err(Error::MalformedColumn),
        },
        LeafDecoder::Categorical => match values {
            Values::Categorical { keys, dictionary } => Ok(Values::Categorical { keys, dictionary }),
            _ => Err(Error::MalformedColumn),
        },
    }
}

} // verus!
