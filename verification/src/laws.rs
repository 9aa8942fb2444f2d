//! What holds of every reassembly, stated over the models and proved.

use crate::array::{ArrayView, NumberKind, ValuesView};
use crate::error::Error;
use crate::leaf::{leaf_decoder, LeafColumn, LeafDecoder};
use crate::nested::{
    leaf_count_from, lemma_leaf_count_from, lemma_shape_drop_last, member, member_stack, members,
    reassembly, validity_fits, MembersView, Reassembled,
};
use crate::nested_utils::{collapse, shape_matches, validity_view, InitNested, NestedView};
use crate::schema::{leaf_count, DataType, Field, IntegerType, PhysicalType, TypeKind};
use vstd::prelude::*;

verus! {

/// The collapsed validity that a reassembled member shows at the level of
/// its struct, the innermost level that is left with it.
pub open spec fn struct_level_validity(r: Reassembled) -> Option<Seq<bool>> {
    collapse(r->Ok_0.0.last().validity)
}

/// The markers under which the members of a struct are reassembled.
pub open spec fn struct_markers(field: Field, init: Seq<InitNested>) -> Seq<InitNested> {
    init.push(InitNested::Struct(field.is_nullable))
}

/// Where the members `from..` were reassembled, each of them was: its
/// array stands at its place, and the validity of the struct is that of the
/// last member.  When `strict`, it is that of every member.
pub proof fn lemma_members_ok(
    columns: Seq<LeafColumn>,
    types: Seq<PhysicalType>,
    fields: Seq<Field>,
    init: Seq<InitNested>,
    strict: bool,
    from: nat,
    i: nat,
)
    requires
        members(columns, types, fields, init, strict, from) is Ok,
        from <= i < fields.len(),
    ensures
        member(columns, types, fields, init, strict, i) is Ok,
        ({
            let m = members(columns, types, fields, init, strict, from)->Ok_0;
            let this = member(columns, types, fields, init, strict, i);
            &&& m.arrays.len() == fields.len() - from
            &&& m.arrays[i - from] == this->Ok_0.1
            &&& strict || i + 1 == fields.len() ==> m.validity == struct_level_validity(this)
            &&& i + 1 == fields.len() ==> m.length == this->Ok_0.0.last().length
            &&& i + 1 == fields.len() ==> m.rest == this->Ok_0.0.drop_last()
        }),
    decreases fields.len() - from,
{
    if from + 1 < fields.len() {
        lemma_members_ok(
            columns,
            types,
            fields,
            init,
            strict,
            from + 1,
            if i == from {
                i + 1
            } else {
                i
            },
        );
    }
}

/// Where every member from `from` on can be reassembled, the members fail
/// only in strict mode, and only by disagreeing on the validity.
pub proof fn lemma_members_fail_only_by_validity(
    columns: Seq<LeafColumn>,
    types: Seq<PhysicalType>,
    fields: Seq<Field>,
    init: Seq<InitNested>,
    strict: bool,
    from: nat,
)
    requires
        from < fields.len(),
        forall|i: nat|
            from <= i < fields.len() ==> (#[trigger] member(
                columns,
                types,
                fields,
                init,
                strict,
                i,
            )) is Ok,
        members(columns, types, fields, init, strict, from) is Err,
    ensures
        strict,
        members(columns, types, fields, init, strict, from) == Err::<MembersView, Error>(
            Error::ValidityMismatch,
        ),
    decreases fields.len() - from,
{
    assert(member(columns, types, fields, init, strict, from) is Ok);
    if from + 1 < fields.len() {
        if members(columns, types, fields, init, strict, from + 1) is Err {
            lemma_members_fail_only_by_validity(columns, types, fields, init, strict, from + 1);
        }
    }
}

/// A struct that was reassembled holds the array of each member at the
/// member's place, has the length that its last member shows, and has the
/// collapsed validity of its last member.  In strict mode that is the
/// collapsed validity of every member.
pub proof fn lemma_struct_of_members(
    columns: Seq<LeafColumn>,
    types: Seq<PhysicalType>,
    field: Field,
    init: Seq<InitNested>,
    strict: bool,
    i: nat,
)
    requires
        field.dtype is Struct,
        reassembly(columns, types, field, init, strict) is Ok,
        i < field.dtype->Struct_0@.len(),
    ensures
        ({
            let fields = field.dtype->Struct_0@;
            let this = member(columns, types, fields, struct_markers(field, init), strict, i);
            let whole = reassembly(columns, types, field, init, strict)->Ok_0.1;
            &&& this is Ok
            &&& whole is Struct
            &&& whole->Struct_fields.len() == fields.len()
            &&& whole->Struct_fields[i as int] == this->Ok_0.1
            &&& strict || i + 1 == fields.len() ==> whole->Struct_validity == struct_level_validity(
                this,
            )
            &&& i + 1 == fields.len() ==> whole->Struct_length == this->Ok_0.0.last().length
        }),
{
    let fields = field.dtype->Struct_0@;
    lemma_members_ok(columns, types, fields, struct_markers(field, init), strict, 0, i);
}

/// A struct whose members can all be reassembled and show one validity is
/// reassembled, in either mode.
pub proof fn lemma_struct_with_shared_validity(
    columns: Seq<LeafColumn>,
    types: Seq<PhysicalType>,
    field: Field,
    init: Seq<InitNested>,
    strict: bool,
)
    requires
        field.dtype is Struct,
        field.dtype->Struct_0@.len() > 0,
        forall|i: nat|
            i < field.dtype->Struct_0@.len() ==> (#[trigger] member(
                columns,
                types,
                field.dtype->Struct_0@,
                struct_markers(field, init),
                strict,
                i,
            )) is Ok,
        forall|i: nat, j: nat|
            i < field.dtype->Struct_0@.len() && j < field.dtype->Struct_0@.len()
                ==> struct_level_validity(
                #[trigger] member(
                    columns,
                    types,
                    field.dtype->Struct_0@,
                    struct_markers(field, init),
                    strict,
                    i,
                ),
            ) == struct_level_validity(
                #[trigger] member(
                    columns,
                    types,
                    field.dtype->Struct_0@,
                    struct_markers(field, init),
                    strict,
                    j,
                ),
            ),
    ensures
        reassembly(columns, types, field, init, strict) is Ok,
{
    let fields = field.dtype->Struct_0@;
    let markers = struct_markers(field, init);
    lemma_members_agree(columns, types, fields, markers, strict, 0);
}

/// Where every member from `from` on can be reassembled and they all show
/// one validity, the members are reassembled.
proof fn lemma_members_agree(
    columns: Seq<LeafColumn>,
    types: Seq<PhysicalType>,
    fields: Seq<Field>,
    init: Seq<InitNested>,
    strict: bool,
    from: nat,
)
    requires
        from < fields.len(),
        forall|i: nat|
            i < fields.len() ==> (#[trigger] member(columns, types, fields, init, strict, i)) is Ok,
        forall|i: nat, j: nat|
            i < fields.len() && j < fields.len() ==> struct_level_validity(
                #[trigger] member(columns, types, fields, init, strict, i),
            ) == struct_level_validity(#[trigger] member(columns, types, fields, init, strict, j)),
    ensures
        members(columns, types, fields, init, strict, from) is Ok,
    decreases fields.len() - from,
{
    let last = (fields.len() - 1) as nat;
    assert(member(columns, types, fields, init, strict, from) is Ok);
    assert(member(columns, types, fields, init, strict, last) is Ok);
    if from + 1 < fields.len() {
        lemma_members_agree(columns, types, fields, init, strict, from + 1);
        lemma_members_ok(columns, types, fields, init, strict, from + 1, last);
    }
}

/// In strict mode, a struct whose members can all be reassembled but do
/// not all show one validity fails, and fails with `ValidityMismatch`.
pub proof fn lemma_struct_with_differing_validity(
    columns: Seq<LeafColumn>,
    types: Seq<PhysicalType>,
    field: Field,
    init: Seq<InitNested>,
    i: nat,
    j: nat,
)
    requires
        field.dtype is Struct,
        forall|k: nat|
            k < field.dtype->Struct_0@.len() ==> (#[trigger] member(
                columns,
                types,
                field.dtype->Struct_0@,
                struct_markers(field, init),
                true,
                k,
            )) is Ok,
        i < field.dtype->Struct_0@.len(),
        j < field.dtype->Struct_0@.len(),
        struct_level_validity(
            member(columns, types, field.dtype->Struct_0@, struct_markers(field, init), true, i),
        ) != struct_level_validity(
            member(columns, types, field.dtype->Struct_0@, struct_markers(field, init), true, j),
        ),
    ensures
        reassembly(columns, types, field, init, true) == Err::<(Seq<NestedView>, ArrayView), Error>(
            Error::ValidityMismatch,
        ),
{
    let fields = field.dtype->Struct_0@;
    let markers = struct_markers(field, init);
    if members(columns, types, fields, markers, true, 0) is Ok {
        lemma_members_ok(columns, types, fields, markers, true, 0, i);
        lemma_members_ok(columns, types, fields, markers, true, 0, j);
    } else {
        lemma_members_fail_only_by_validity(columns, types, fields, markers, true, 0);
    }
}

/// A struct without members fails with `EmptyStruct`, whatever the stacks hold.
pub proof fn lemma_empty_struct(
    columns: Seq<LeafColumn>,
    types: Seq<PhysicalType>,
    field: Field,
    init: Seq<InitNested>,
    strict: bool,
)
    requires
        field.dtype is Struct,
        field.dtype->Struct_0@.len() == 0,
    ensures
        reassembly(columns, types, field, init, strict) == Err::<(Seq<NestedView>, ArrayView), Error>(
            Error::EmptyStruct,
        ),
{
}

/// A decimal stored in byte arrays wider than itself, more than 16 bytes
/// for 128 bits or more than 32 bytes for 256 bits, fails with
/// `DecimalWidth` and names the width.  No byte is dropped to make it fit.
pub proof fn lemma_decimal_width(
    columns: Seq<LeafColumn>,
    types: Seq<PhysicalType>,
    field: Field,
    init: Seq<InitNested>,
    strict: bool,
    width: usize,
)
    requires
        columns.len() > 0,
        types.len() > 0,
        types.last() == PhysicalType::FixedLenByteArray(width),
        (field.dtype is Decimal && width > 16) || (field.dtype is Decimal256 && width > 32),
    ensures
        reassembly(columns, types, field, init, strict) == Err::<(Seq<NestedView>, ArrayView), Error>(
            Error::DecimalWidth { logical: field.dtype.kind_spec(), width },
        ),
{
}

/// An unsigned 32-bit column is read from 32-bit or 64-bit integers only:
/// stored as anything else, as byte arrays or booleans say, it fails with
/// `UnsupportedPhysical`, which names both types.
pub proof fn lemma_uint32_storage(
    columns: Seq<LeafColumn>,
    types: Seq<PhysicalType>,
    field: Field,
    init: Seq<InitNested>,
    strict: bool,
)
    requires
        columns.len() > 0,
        types.len() > 0,
        field.dtype is UInt32,
        types.last() != PhysicalType::Int32,
        types.last() != PhysicalType::Int64,
    ensures
        reassembly(columns, types, field, init, strict) == Err::<(Seq<NestedView>, ArrayView), Error>(
            Error::UnsupportedPhysical { logical: TypeKind::UInt32, physical: types.last() },
        ),
{
}

/// A dictionary that is marked neither categorical nor enum is read as
/// text and typed as a dictionary with the values in line, whatever its key
/// type is.
pub proof fn lemma_plain_dictionary(
    columns: Seq<LeafColumn>,
    types: Seq<PhysicalType>,
    field: Field,
    init: Seq<InitNested>,
    strict: bool,
)
    requires
        columns.len() > 0,
        types.len() > 0,
        field.dtype is Dictionary,
        !field.is_categorical_or_enum(),
        types.last() == PhysicalType::ByteArray,
    ensures
        leaf_decoder(field, types.last()) == Ok::<LeafDecoder, Error>(
            LeafDecoder::InlineDictionary(field.dtype->Dictionary_0),
        ),
        reassembly(columns, types, field, init, strict) is Ok <==> shape_matches(
            columns.last().nested@,
            init,
        ) && validity_fits(columns.last()) && columns.last().values@ is Binary,
        reassembly(columns, types, field, init, strict) is Ok ==> reassembly(
            columns,
            types,
            field,
            init,
            strict,
        ) == Ok::<(Seq<NestedView>, ArrayView), Error>(
            (
                columns.last().nested@,
                ArrayView::Leaf {
                    values: ValuesView::Dictionary {
                        key_type: field.dtype->Dictionary_0,
                        values: columns.last().values@->Binary_0,
                    },
                    validity: validity_view(columns.last().validity),
                },
            ),
        ),
{
}

/// A dictionary that is marked categorical or enum is well formed only
/// with unsigned 32-bit keys.
pub proof fn lemma_categorical_keys(field: Field)
    requires
        field.dtype is Dictionary,
        field.is_categorical_or_enum(),
        field.dtype->Dictionary_0 != IntegerType::UInt32,
    ensures
        !field.wf(),
{
}

/// What is left of the shape after a reassembly has one level for each
/// marker that the caller gave, each of the marker's kind: every level
/// that the node added was folded into a container.  Under no markers, at
/// the root, nothing is left.
pub proof fn lemma_reassembly_shape(
    columns: Seq<LeafColumn>,
    types: Seq<PhysicalType>,
    field: Field,
    init: Seq<InitNested>,
    strict: bool,
)
    requires
        reassembly(columns, types, field, init, strict) is Ok,
    ensures
        shape_matches(reassembly(columns, types, field, init, strict)->Ok_0.0, init),
        init.len() == 0 ==> reassembly(columns, types, field, init, strict)->Ok_0.0.len() == 0,
    decreases field, 0nat,
{
    match field.dtype {
        DataType::List(inner) => {
            let marker = InitNested::List(field.is_nullable);
            lemma_reassembly_shape(columns, types, *inner, init.push(marker), strict);
            lemma_shape_drop_last(
                reassembly(columns, types, *inner, init.push(marker), strict)->Ok_0.0,
                init,
                marker,
            );
        },
        DataType::LargeList(inner) => {
            let marker = InitNested::List(field.is_nullable);
            lemma_reassembly_shape(columns, types, *inner, init.push(marker), strict);
            lemma_shape_drop_last(
                reassembly(columns, types, *inner, init.push(marker), strict)->Ok_0.0,
                init,
                marker,
            );
        },
        DataType::FixedSizeList(inner, width) => {
            let marker = InitNested::FixedSizeList(field.is_nullable, width);
            lemma_reassembly_shape(columns, types, *inner, init.push(marker), strict);
            lemma_shape_drop_last(
                reassembly(columns, types, *inner, init.push(marker), strict)->Ok_0.0,
                init,
                marker,
            );
        },
        DataType::Mapping(inner, _) => {
            let marker = InitNested::List(field.is_nullable);
            lemma_reassembly_shape(columns, types, *inner, init.push(marker), strict);
            lemma_shape_drop_last(
                reassembly(columns, types, *inner, init.push(marker), strict)->Ok_0.0,
                init,
                marker,
            );
        },
        DataType::Struct(fields) => {
            let marker = InitNested::Struct(field.is_nullable);
            let last = (fields@.len() - 1) as nat;
            lemma_members_ok(columns, types, fields@, init.push(marker), strict, 0, last);
            assert(member(columns, types, fields@, init.push(marker), strict, last) is Ok);
            lemma_reassembly_shape(
                member_stack(columns, fields@, last),
                member_stack(types, fields@, last),
                fields@[last as int],
                init.push(marker),
                strict,
            );
            lemma_shape_drop_last(
                member(columns, types, fields@, init.push(marker), strict, last)->Ok_0.0,
                init,
                marker,
            );
        },
        _ => {},
    }
}

/// A reassembly reads the columns and types of its own leaves, the last
/// on the stacks, and no others: what stands before them does not change
/// its outcome.  So fields can be reassembled apart, each from its own
/// part of the columns.
pub proof fn lemma_reassembly_reads_own_columns(
    before_columns: Seq<LeafColumn>,
    before_types: Seq<PhysicalType>,
    columns: Seq<LeafColumn>,
    types: Seq<PhysicalType>,
    field: Field,
    init: Seq<InitNested>,
    strict: bool,
)
    requires
        leaf_count(field.dtype) <= columns.len(),
        leaf_count(field.dtype) <= types.len(),
    ensures
        reassembly(before_columns + columns, before_types + types, field, init, strict)
            == reassembly(columns, types, field, init, strict),
    decreases field, 0nat,
{
    match field.dtype {
        DataType::List(inner) => {
            lemma_reassembly_reads_own_columns(
                before_columns,
                before_types,
                columns,
                types,
                *inner,
                init.push(InitNested::List(field.is_nullable)),
                strict,
            );
        },
        DataType::LargeList(inner) => {
            lemma_reassembly_reads_own_columns(
                before_columns,
                before_types,
                columns,
                types,
                *inner,
                init.push(InitNested::List(field.is_nullable)),
                strict,
            );
        },
        DataType::FixedSizeList(inner, width) => {
            lemma_reassembly_reads_own_columns(
                before_columns,
                before_types,
                columns,
                types,
                *inner,
                init.push(InitNested::FixedSizeList(field.is_nullable, width)),
                strict,
            );
        },
        DataType::Mapping(inner, _) => {
            lemma_reassembly_reads_own_columns(
                before_columns,
                before_types,
                columns,
                types,
                *inner,
                init.push(InitNested::List(field.is_nullable)),
                strict,
            );
        },
        DataType::Struct(fields) => {
            if fields@.len() > 0 {
                lemma_leaf_count_from(fields@, 0);
                lemma_members_read_own_columns(
                    before_columns,
                    before_types,
                    columns,
                    types,
                    fields@,
                    init.push(InitNested::Struct(field.is_nullable)),
                    strict,
                    0,
                );
            }
        },
        _ => {
            assert((before_columns + columns).last() == columns.last());
            assert((before_types + types).last() == types.last());
        },
    }
}

/// The same of the members `from..` of a struct.
proof fn lemma_members_read_own_columns(
    before_columns: Seq<LeafColumn>,
    before_types: Seq<PhysicalType>,
    columns: Seq<LeafColumn>,
    types: Seq<PhysicalType>,
    fields: Seq<Field>,
    init: Seq<InitNested>,
    strict: bool,
    from: nat,
)
    requires
        from < fields.len(),
        leaf_count_from(fields, 0) <= columns.len(),
        leaf_count_from(fields, 0) <= types.len(),
    ensures
        members(before_columns + columns, before_types + types, fields, init, strict, from)
            == members(columns, types, fields, init, strict, from),
    decreases fields, fields.len() - from,
{
    lemma_leaf_count_from_monotonic(fields, from);
    lemma_leaf_count_from(fields, from);
    let own_columns = member_stack(columns, fields, from);
    let own_types = member_stack(types, fields, from);
    assert(member_stack(before_columns + columns, fields, from) =~= before_columns + own_columns);
    assert(member_stack(before_types + types, fields, from) =~= before_types + own_types);
    lemma_reassembly_reads_own_columns(
        before_columns,
        before_types,
        own_columns,
        own_types,
        fields[from as int],
        init,
        strict,
    );
    assert(member(before_columns + columns, before_types + types, fields, init, strict, from)
        == member(columns, types, fields, init, strict, from));
    if from + 1 < fields.len() {
        lemma_members_read_own_columns(
            before_columns,
            before_types,
            columns,
            types,
            fields,
            init,
            strict,
            from + 1,
        );
    }
}

/// The members after `from` have no more columns than all the members.
proof fn lemma_leaf_count_from_monotonic(fields: Seq<Field>, from: nat)
    requires
        from < fields.len(),
    ensures
        leaf_count_from(fields, from + 1) <= leaf_count_from(fields, from) <= leaf_count_from(
            fields,
            0,
        ),
    decreases from,
{
    lemma_leaf_count_from(fields, from);
    if from > 0 {
        lemma_leaf_count_from_monotonic(fields, (from - 1) as nat);
    }
}

/// Whether a buffer holds values of the logical type of a leaf.
pub open spec fn values_mirror(values: ValuesView, field: Field) -> bool {
    match field.dtype {
        DataType::Null => values is Null,
        DataType::Boolean => values is Boolean,
        DataType::Int8 => values is Numbers && values->Numbers_kind == NumberKind::Int8,
        DataType::Int16 => values is Numbers && values->Numbers_kind == NumberKind::Int16,
        DataType::Int32 => values is Numbers && values->Numbers_kind == NumberKind::Int32,
        DataType::Int64 => values is Numbers && values->Numbers_kind == NumberKind::Int64,
        DataType::UInt8 => values is Numbers && values->Numbers_kind == NumberKind::UInt8,
        DataType::UInt16 => values is Numbers && values->Numbers_kind == NumberKind::UInt16,
        DataType::UInt32 => values is Numbers && values->Numbers_kind == NumberKind::UInt32,
        DataType::UInt64 => values is Numbers && values->Numbers_kind == NumberKind::UInt64,
        DataType::Float32 => values is Numbers && values->Numbers_kind == NumberKind::Float32,
        DataType::Float64 => values is Numbers && values->Numbers_kind == NumberKind::Float64,
        DataType::BinaryView => values is Binary,
        DataType::Utf8View => values is Binary,
        DataType::Decimal(_, _) => values is Numbers && values->Numbers_kind
            == NumberKind::Decimal128,
        DataType::Decimal256(_, _) => values is Numbers && values->Numbers_kind
            == NumberKind::Decimal256,
        DataType::Dictionary(key, _) => if field.is_categorical_or_enum() {
            values is Categorical
        } else {
            values is Dictionary && values->Dictionary_key_type == key
        },
        _ => false,
    }
}

/// Whether an array mirrors a schema node: a container of the node's kind
/// over children that mirror the node's children, or a leaf buffer of the
/// node's logical type.
pub open spec fn mirrors(array: ArrayView, field: Field) -> bool
    decreases field,
{
    match field.dtype {
        DataType::List(inner) => array is List && !array->List_large && mirrors(
            *array->List_values,
            *inner,
        ),
        DataType::LargeList(inner) => array is List && array->List_large && mirrors(
            *array->List_values,
            *inner,
        ),
        DataType::FixedSizeList(inner, width) => array is FixedSizeList
            && array->FixedSizeList_width == width && mirrors(*array->FixedSizeList_values, *inner),
        DataType::Mapping(inner, _) => array is Mapping && mirrors(*array->Mapping_entries, *inner),
        DataType::Struct(fields) => {
            &&& array is Struct
            &&& array->Struct_fields.len() == fields@.len()
            &&& forall|i: int|
                0 <= i < fields@.len() ==> mirrors(array->Struct_fields[i], #[trigger] fields@[i])
        },
        _ => array is Leaf && values_mirror(array->Leaf_values, field),
    }
}

/// The array that a reassembly gives mirrors the schema node it was
/// reassembled for, at every level.
pub proof fn lemma_reassembly_mirrors(
    columns: Seq<LeafColumn>,
    types: Seq<PhysicalType>,
    field: Field,
    init: Seq<InitNested>,
    strict: bool,
)
    requires
        reassembly(columns, types, field, init, strict) is Ok,
    ensures
        mirrors(reassembly(columns, types, field, init, strict)->Ok_0.1, field),
    decreases field, 0nat,
{
    match field.dtype {
        DataType::List(inner) => {
            lemma_reassembly_mirrors(
                columns,
                types,
                *inner,
                init.push(InitNested::List(field.is_nullable)),
                strict,
            );
        },
        DataType::LargeList(inner) => {
            lemma_reassembly_mirrors(
                columns,
                types,
                *inner,
                init.push(InitNested::List(field.is_nullable)),
                strict,
            );
        },
        DataType::FixedSizeList(inner, width) => {
            lemma_reassembly_mirrors(
                columns,
                types,
                *inner,
                init.push(InitNested::FixedSizeList(field.is_nullable, width)),
                strict,
            );
        },
        DataType::Mapping(inner, _) => {
            lemma_reassembly_mirrors(
                columns,
                types,
                *inner,
                init.push(InitNested::List(field.is_nullable)),
                strict,
            );
        },
        DataType::Struct(fields) => {
            let markers = struct_markers(field, init);
            let whole = reassembly(columns, types, field, init, strict)->Ok_0.1;
            assert forall|i: int| 0 <= i < fields@.len() implies mirrors(
                whole->Struct_fields[i],
                #[trigger] fields@[i],
            ) by {
                lemma_members_ok(columns, types, fields@, markers, strict, 0, i as nat);
                assert(member(columns, types, fields@, markers, strict, i as nat) is Ok);
                lemma_reassembly_mirrors(
                    member_stack(columns, fields@, i as nat),
                    member_stack(types, fields@, i as nat),
                    fields@[i],
                    markers,
                    strict,
                );
            }
            lemma_members_ok(columns, types, fields@, markers, strict, 0, 0);
        },
        _ => {},
    }
}

} // verus!
