//! The reassembly itself: a walk over the schema tree that takes leaf
//! columns off the end of a stack and folds them into nested arrays.

use crate::array::{arrays_view, lemma_arrays_view, Array, ArrayView};
use crate::error::Error;
use crate::leaf::{decode, decode_values, leaf_decoder, select_decoder, LeafColumn, LeafDecoder};
use crate::nested_utils::{
    collapse, freeze, level_matches, same_validity, shape_matches, taken, validity_view,
    InitNested, NestedState, NestedView,
};
use crate::schema::{
    leaf_count, leaf_count_of, lemma_leaf_count_of_monotonic, DataType, Field, PhysicalType,
};
use vstd::pervasive::unreached;
use vstd::prelude::*;

verus! {

/// The model of a reassembled value: the levels of shape that are left for
/// the caller, outermost first, and the array.
pub type Reassembled = Result<(Seq<NestedView>, ArrayView), Error>;

/// The model of the outcome of a reassembly.
pub open spec fn reassembled_view(r: Result<(NestedState, Array), Error>) -> Reassembled {
    match r {
        Ok((nested, array)) => Ok((nested@, array@)),
        Err(e) => Err(e),
    }
}

/// Whether the validity of a leaf column, if it has one, has one flag for
/// each of its values.
pub open spec fn validity_fits(column: LeafColumn) -> bool {
    column.validity matches Some(bits) ==> bits@.len() == column.values@.len()
}

/// What one leaf column becomes under the given markers: the column must
/// have one level of shape for each marker, a validity that fits its
/// values, and values that are stored as the decoder of its types reads
/// them.  A null column has no validity, and none is asked of it.
pub open spec fn leaf_array(
    column: LeafColumn,
    physical: PhysicalType,
    field: Field,
    init: Seq<InitNested>,
) -> Reassembled {
    match leaf_decoder(field, physical) {
        Err(e) => Err(e),
        Ok(decoder) => if !shape_matches(column.nested@, init) {
            Err(Error::MalformedColumn)
        } else if !(decoder is Null) && !validity_fits(column) {
            Err(Error::MalformedColumn)
        } else {
            match decode_values(decoder, column.values@) {
                Err(e) => Err(e),
                Ok(values) => Ok(
                    (
                        column.nested@,
                        ArrayView::Leaf {
                            values,
                            validity: if decoder is Null {
                                None
                            } else {
                                validity_view(column.validity)
                            },
                        },
                    ),
                ),
            }
        },
    }
}

/// The list array over `child` whose offsets and validity are those of `level`.
/// The end of the last list, the length of the child, closes the offsets.
pub open spec fn list_array(large: bool, level: NestedView, child: ArrayView) -> ArrayView {
    ArrayView::List {
        large,
        offsets: taken(level).1.push(child.len() as usize),
        values: Box::new(child),
        validity: collapse(level.validity),
    }
}

/// The fixed-size list array over `child` whose length and validity are
/// those of `level`.  Its offsets are not stored: they follow from the width.
pub open spec fn fixed_size_list_array(width: usize, level: NestedView, child: ArrayView) -> ArrayView {
    ArrayView::FixedSizeList {
        width,
        length: level.length,
        values: Box::new(child),
        validity: collapse(level.validity),
    }
}

/// The map array over the entries `child`, laid out as a list array is.
pub open spec fn map_array(level: NestedView, child: ArrayView) -> ArrayView {
    ArrayView::Mapping {
        offsets: taken(level).1.push(child.len() as usize),
        entries: Box::new(child),
        validity: collapse(level.validity),
    }
}

/// The container of the given list type over `child`.
pub open spec fn container_array(dtype: DataType, level: NestedView, child: ArrayView) -> ArrayView {
    match dtype {
        DataType::List(_) => list_array(false, level, child),
        DataType::LargeList(_) => list_array(true, level, child),
        DataType::FixedSizeList(_, width) => fixed_size_list_array(width, level, child),
        _ => map_array(level, child),
    }
}

/// Folds the innermost level of shape and a child array into a container.
pub open spec fn wrapped(dtype: DataType, inner: Reassembled) -> Reassembled {
    match inner {
        Err(e) => Err(e),
        Ok((nested, child)) => Ok((nested.drop_last(), container_array(dtype, nested.last(), child))),
    }
}

/// The number of leaf columns under the members `from..` of a struct.
pub open spec fn leaf_count_from(fields: Seq<Field>, from: nat) -> nat {
    (leaf_count_of(fields, fields.len()) - leaf_count_of(fields, from)) as nat
}

/// The part of a stack that is left when member `i` of a struct is taken
/// from it: the members after `i` have taken their columns off the end.
pub open spec fn member_stack<T>(stack: Seq<T>, fields: Seq<Field>, i: nat) -> Seq<T> {
    stack.take(stack.len() - leaf_count_from(fields, i + 1))
}

/// The members of a struct from some index on.
pub struct MembersView {
    /// The levels of shape above the struct.
    pub rest: Seq<NestedView>,
    /// The number of rows of the struct.
    pub length: usize,
    /// The collapsed validity of the struct.
    pub validity: Option<Seq<bool>>,
    /// The arrays of the members, in declared order.
    pub arrays: Seq<ArrayView>,
}

/// What the leaf columns at the end of the two stacks become under a
/// schema node.
///
/// A leaf takes one column and one type off the stacks.  A list, a
/// fixed-size list or a map adds its marker, reassembles its child and
/// folds the innermost level of shape into a container.  A struct adds its
/// marker and reassembles its members from the last to the first, each from
/// what the members after it left on the stacks.
pub open spec fn reassembly(
    columns: Seq<LeafColumn>,
    types: Seq<PhysicalType>,
    field: Field,
    init: Seq<InitNested>,
    strict: bool,
) -> Reassembled
    decreases field, 0nat,
{
    match field.dtype {
        DataType::List(inner) => wrapped(
            field.dtype,
            reassembly(columns, types, *inner, init.push(InitNested::List(field.is_nullable)), strict),
        ),
        DataType::LargeList(inner) => wrapped(
            field.dtype,
            reassembly(columns, types, *inner, init.push(InitNested::List(field.is_nullable)), strict),
        ),
        DataType::FixedSizeList(inner, width) => wrapped(
            field.dtype,
            reassembly(
                columns,
                types,
                *inner,
                init.push(InitNested::FixedSizeList(field.is_nullable, width)),
                strict,
            ),
        ),
        DataType::Mapping(inner, _) => wrapped(
            field.dtype,
            reassembly(columns, types, *inner, init.push(InitNested::List(field.is_nullable)), strict),
        ),
        DataType::Struct(fields) => if fields@.len() == 0 {
            Err(Error::EmptyStruct)
        } else {
            match members(
                columns,
                types,
                fields@,
                init.push(InitNested::Struct(field.is_nullable)),
                strict,
                0,
            ) {
                Err(e) => Err(e),
                Ok(m) => Ok(
                    (
                        m.rest,
                        ArrayView::Struct { length: m.length, fields: m.arrays, validity: m.validity },
                    ),
                ),
            }
        },
        DataType::Float16 => Err(Error::UnsupportedType(field.dtype.kind_spec())),
        DataType::FixedSizeBinary(_) => Err(Error::UnsupportedType(field.dtype.kind_spec())),
        _ => if columns.len() == 0 || types.len() == 0 {
            Err(Error::MissingColumn)
        } else {
            leaf_array(columns.last(), types.last(), field, init)
        },
    }
}

/// What member `i` of a struct becomes: it is reassembled from what the
/// members after it left on the stacks, under the markers of the struct.
pub open spec fn member(
    columns: Seq<LeafColumn>,
    types: Seq<PhysicalType>,
    fields: Seq<Field>,
    init: Seq<InitNested>,
    strict: bool,
    i: nat,
) -> Reassembled
    decreases fields, 0nat,
{
    if i < fields.len() {
        reassembly(
            member_stack(columns, fields, i),
            member_stack(types, fields, i),
            fields[i as int],
            init,
            strict,
        )
    } else {
        Err(Error::EmptyStruct)
    }
}

/// What the members `from..` of a struct become.  The last member gives
/// the struct its length and its validity.  When `strict`, every other
/// member must agree with that validity once both are collapsed.  The
/// first failure met on the way from the last member to member `from` is
/// the failure of the whole.
pub open spec fn members(
    columns: Seq<LeafColumn>,
    types: Seq<PhysicalType>,
    fields: Seq<Field>,
    init: Seq<InitNested>,
    strict: bool,
    from: nat,
) -> Result<MembersView, Error>
    decreases fields, fields.len() - from,
{
    if from >= fields.len() {
        Err(Error::EmptyStruct)
    } else if from + 1 == fields.len() {
        match member(columns, types, fields, init, strict, from) {
            Err(e) => Err(e),
            Ok((nested, array)) => Ok(
                MembersView {
                    rest: nested.drop_last(),
                    length: nested.last().length,
                    validity: collapse(nested.last().validity),
                    arrays: seq![array],
                },
            ),
        }
    } else {
        match members(columns, types, fields, init, strict, from + 1) {
            Err(e) => Err(e),
            Ok(later) => match member(columns, types, fields, init, strict, from) {
                Err(e) => Err(e),
                Ok((nested, array)) => if strict && collapse(nested.last().validity)
                    != later.validity {
                    Err(Error::ValidityMismatch)
                } else {
                    Ok(
                        MembersView {
                            rest: later.rest,
                            length: later.length,
                            validity: later.validity,
                            arrays: seq![array] + later.arrays,
                        },
                    )
                },
            },
        }
    }
}

/// A shape that matches markers, the last of which is `marker`, has an
/// innermost level of the kind of `marker` and matches the rest without it.
pub proof fn lemma_shape_drop_last(
    levels: Seq<NestedView>,
    markers: Seq<InitNested>,
    marker: InitNested,
)
    requires
        shape_matches(levels, markers.push(marker)),
    ensures
        levels.len() > 0,
        level_matches(levels.last(), marker),
        shape_matches(levels.drop_last(), markers),
{
    let all = markers.push(marker);
    assert(all.len() == markers.len() + 1);
    assert(level_matches(levels[levels.len() - 1], all[levels.len() - 1]));
    assert forall|i: int| 0 <= i < levels.drop_last().len() implies level_matches(
        #[trigger] levels.drop_last()[i],
        markers[i],
    ) by {
        assert(level_matches(levels[i], all[i]));
    }
}

/// Builds a list or fixed-size list array over `values` from the innermost
/// level of shape, which it takes off `nested`.
pub fn create_list(dtype: &DataType, nested: &mut NestedState, values: Array) -> (array: Array)
    requires
        old(nested)@.len() > 0,
        *dtype is List || *dtype is LargeList || *dtype is FixedSizeList,
    ensures
        final(nested)@ == old(nested)@.drop_last(),
        array@ == container_array(*dtype, old(nested)@.last(), values@),
{
    match nested.pop() {
        Some((length, offsets, validity)) => {
            let validity = freeze(validity);
            match dtype {
                DataType::FixedSizeList(_, width) => Array::FixedSizeList {
                    width: *width,
                    length,
                    values: Box::new(values),
                    validity,
                },
                DataType::LargeList(_) => {
                    let mut offsets = offsets;
                    offsets.push(values.len());
                    Array::List { large: true, offsets, values: Box::new(values), validity }
                },
                _ => {
                    let mut offsets = offsets;
                    offsets.push(values.len());
                    Array::List { large: false, offsets, values: Box::new(values), validity }
                },
            }
        },
        None => unreached(),
    }
}

/// Builds a map array over the entries `values` from the innermost level
/// of shape, which it takes off `nested`.
pub fn create_map(dtype: &DataType, nested: &mut NestedState, values: Array) -> (array: Array)
    requires
        old(nested)@.len() > 0,
        *dtype is Mapping,
    ensures
        final(nested)@ == old(nested)@.drop_last(),
        array@ == container_array(*dtype, old(nested)@.last(), values@),
{
    match nested.pop() {
        Some((_, offsets, validity)) => {
            let mut offsets = offsets;
            offsets.push(values.len());
            Array::Mapping { offsets, entries: Box::new(values), validity: freeze(validity) }
        },
        None => unreached(),
    }
}

/// A copy of the markers.
pub(crate) fn copy_markers(init: &Vec<InitNested>) -> (r: Vec<InitNested>)
    ensures
        r@ == init@,
{
    let mut r: Vec<InitNested> = Vec::with_capacity(init.len());
    let mut i: usize = 0;
    while i < init.len()
        invariant
            i <= init.len(),
            r@ == init@.take(i as int),
        decreases init.len() - i,
    {
        r.push(init[i]);
        i = i + 1;
        assert(r@ =~= init@.take(i as int));
    }
    assert(init@.take(init@.len() as int) =~= init@);
    r
}

/// Whether a stack lost exactly `n` entries off its end.
pub open spec fn took<T>(before: Seq<T>, after: Seq<T>, n: nat) -> bool {
    n <= before.len() && after == before.take(before.len() - n)
}

/// Takes one leaf column and its type off the stacks and decodes it.
fn reconstruct_leaf(
    columns: &mut Vec<LeafColumn>,
    types: &mut Vec<PhysicalType>,
    field: &Field,
    init: Vec<InitNested>,
) -> (r: Result<(NestedState, Array), Error>)
    requires
        field.wf(),
    ensures
        old(columns)@.len() == 0 || old(types)@.len() == 0 ==> r == Err::<(NestedState, Array), Error>(
            Error::MissingColumn,
        ),
        old(columns)@.len() > 0 && old(types)@.len() > 0 ==> reassembled_view(r) == leaf_array(
            old(columns)@.last(),
            old(types)@.last(),
            *field,
            init@,
        ),
        r matches Ok((nested, _)) ==> shape_matches(nested@, init@),
        r is Ok ==> took(old(columns)@, final(columns)@, 1),
        r is Ok ==> took(old(types)@, final(types)@, 1),
{
    let physical = match types.pop() {
        Some(physical) => physical,
        None => {
            return Err(Error::MissingColumn);
        },
    };
    let column = match columns.pop() {
        Some(column) => column,
        None => {
            return Err(Error::MissingColumn);
        },
    };
    let decoder = match select_decoder(field, physical) {
        Ok(decoder) => decoder,
        Err(e) => {
            return Err(e);
        },
    };
    let LeafColumn { nested, values, validity } = column;
    if !nested.matches(&init) {
        return Err(Error::MalformedColumn);
    }
    let validity = match decoder {
        LeafDecoder::Null => None,
        _ => {
            let fits = match &validity {
                Some(bits) => bits.len() == values.len(),
                None => true,
            };
            if !fits {
                return Err(Error::MalformedColumn);
            }
            validity
        },
    };
    let values = match decode(decoder, values) {
        Ok(values) => values,
        Err(e) => {
            return Err(e);
        },
    };
    Ok((nested, Array::Leaf { values, validity }))
}

/// A failure among the later members is the failure of the earlier ones too.
pub proof fn lemma_members_error(
    columns: Seq<LeafColumn>,
    types: Seq<PhysicalType>,
    fields: Seq<Field>,
    init: Seq<InitNested>,
    strict: bool,
    from: nat,
    to: nat,
)
    requires
        to <= from < fields.len(),
        members(columns, types, fields, init, strict, from) is Err,
    ensures
        members(columns, types, fields, init, strict, to) == members(
            columns,
            types,
            fields,
            init,
            strict,
            from,
        ),
    decreases from - to,
{
    if to < from {
        lemma_members_error(columns, types, fields, init, strict, from, to + 1);
    }
}

/// The columns under the members `k..` are those of member `k` and of the
/// members after it.
pub proof fn lemma_leaf_count_from(fields: Seq<Field>, k: nat)
    requires
        k < fields.len(),
    ensures
        leaf_count_from(fields, k) == leaf_count(fields[k as int].dtype) + leaf_count_from(
            fields,
            k + 1,
        ),
        leaf_count_from(fields, fields.len()) == 0,
        leaf_count_from(fields, 0) == leaf_count_of(fields, fields.len()),
{
    lemma_leaf_count_of_monotonic(fields, k + 1, fields.len());
    lemma_leaf_count_of_monotonic(fields, k, k + 1);
}

/// Taking `a` entries off a stack and then `b` more takes `a + b` off it.
pub proof fn lemma_took_twice<T>(before: Seq<T>, between: Seq<T>, after: Seq<T>, a: nat, b: nat)
    requires
        took(before, between, a),
        took(between, after, b),
    ensures
        took(before, after, a + b),
{
    assert(after =~= before.take(before.len() - (a + b)));
}

/// The arrays in reverse order.
fn reversed(arrays: Vec<Array>) -> (out: Vec<Array>)
    ensures
        out@.len() == arrays@.len(),
        forall|i: int| 0 <= i < out@.len() ==> out@[i] == arrays@[arrays@.len() - 1 - i],
{
    let ghost all = arrays@;
    let mut arrays = arrays;
    let mut out: Vec<Array> = Vec::with_capacity(arrays.len());
    while arrays.len() > 0
        invariant
            arrays@.len() + out@.len() == all.len(),
            arrays@ == all.take(arrays@.len() as int),
            forall|i: int| 0 <= i < out@.len() ==> out@[i] == all[all.len() - 1 - i],
        decreases arrays@.len(),
    {
        match arrays.pop() {
            Some(array) => {
                out.push(array);
                assert(arrays@ =~= all.take(arrays@.len() as int));
            },
            None => {},
        }
    }
    out
}

/// Takes the leaf columns of the members of a struct off the stacks, from
/// the last member to the first, and hands out what is left of the shape,
/// the length and collapsed validity of the struct, and the arrays of the
/// members in declared order.
fn reconstruct_members(
    columns: &mut Vec<LeafColumn>,
    types: &mut Vec<PhysicalType>,
    fields: &Vec<Field>,
    init: &Vec<InitNested>,
    marker: InitNested,
    strict: bool,
) -> (r: Result<(NestedState, usize, Option<Vec<bool>>, Vec<Array>), Error>)
    requires
        fields@.len() > 0,
        forall|i: int| 0 <= i < fields@.len() ==> (#[trigger] fields@[i]).wf(),
    ensures
        match r {
            Ok((nested, length, validity, arrays)) => members(
                old(columns)@,
                old(types)@,
                fields@,
                init@.push(marker),
                strict,
                0,
            ) == Ok::<MembersView, Error>(
                MembersView {
                    rest: nested@,
                    length,
                    validity: validity_view(validity),
                    arrays: arrays_view(arrays@, arrays@.len()),
                },
            ) && shape_matches(nested@, init@),
            Err(e) => members(old(columns)@, old(types)@, fields@, init@.push(marker), strict, 0)
                == Err::<MembersView, Error>(e),
        },
        r is Ok ==> took(old(columns)@, final(columns)@, leaf_count_of(fields@, fields@.len())),
        r is Ok ==> took(old(types)@, final(types)@, leaf_count_of(fields@, fields@.len())),
    decreases *fields,
{
    let ghost c0 = columns@;
    let ghost t0 = types@;
    let ghost markers = init@.push(marker);
    let n: usize = fields.len();
    let mut k: usize = n - 1;

    let mut last_init = copy_markers(init);
    last_init.push(marker);
    proof {
        assert(decreases_to!(*fields => fields[k as int]));
        lemma_leaf_count_from(fields@, k as nat);
        assert(c0.take(c0.len() - 0) =~= c0);
        assert(t0.take(t0.len() - 0) =~= t0);
        assert(member_stack(c0, fields@, k as nat) == c0);
        assert(member_stack(t0, fields@, k as nat) == t0);
        assert(last_init@ == markers);
    }
    let last = reconstruct(columns, types, &fields[k], last_init, strict);
    proof {
        assert(reassembled_view(last) == member(c0, t0, fields@, markers, strict, k as nat));
    }
    let (mut nested, last_array) = match last {
        Ok(done) => done,
        Err(e) => {
            proof {
                assert(members(c0, t0, fields@, markers, strict, k as nat) == Err::<
                    MembersView,
                    Error,
                >(e));
                lemma_members_error(c0, t0, fields@, markers, strict, k as nat, 0);
            }
            return Err(e);
        },
    };
    proof {
        lemma_shape_drop_last(nested@, init@, marker);
    }
    let (length, struct_validity) = match nested.pop() {
        Some((length, _, validity)) => (length, validity),
        None => unreached(),
    };
    let frozen = freeze(struct_validity);
    let mut field_arrays: Vec<Array> = Vec::with_capacity(n);
    let ghost mut m = MembersView {
        rest: nested@,
        length,
        validity: validity_view(frozen),
        arrays: seq![last_array@],
    };
    field_arrays.push(last_array);

    while k > 0
        invariant
            k < n,
            n == fields@.len(),
            markers == init@.push(marker),
            c0 == old(columns)@,
            t0 == old(types)@,
            forall|i: int| 0 <= i < fields@.len() ==> (#[trigger] fields@[i]).wf(),
            members(c0, t0, fields@, markers, strict, k as nat) == Ok::<MembersView, Error>(m),
            m.rest == nested@,
            m.length == length,
            m.validity == validity_view(frozen),
            m.arrays.len() == n - k,
            field_arrays@.len() == n - k,
            forall|j: int|
                0 <= j < n - k ==> (#[trigger] field_arrays@[j])@ == m.arrays[n - k - 1 - j],
            shape_matches(nested@, init@),
            took(c0, columns@, leaf_count_from(fields@, k as nat)),
            took(t0, types@, leaf_count_from(fields@, k as nat)),
        decreases k,
    {
        let ghost k_before = k;
        let ghost c1 = columns@;
        let ghost t1 = types@;
        k = k - 1;
        let mut member_init = copy_markers(init);
        member_init.push(marker);
        proof {
            assert(decreases_to!(*fields => fields[k as int]));
            lemma_leaf_count_from(fields@, k as nat);
            assert(c1 == member_stack(c0, fields@, k as nat));
            assert(t1 == member_stack(t0, fields@, k as nat));
            assert(member_init@ == markers);
        }
        let this = reconstruct(columns, types, &fields[k], member_init, strict);
        proof {
            assert(reassembled_view(this) == member(c0, t0, fields@, markers, strict, k as nat));
        }
        let (mut member_nested, array) = match this {
            Ok(done) => done,
            Err(e) => {
                proof {
                    assert(members(c0, t0, fields@, markers, strict, k as nat) == Err::<
                        MembersView,
                        Error,
                    >(e));
                    lemma_members_error(c0, t0, fields@, markers, strict, k as nat, 0);
                }
                return Err(e);
            },
        };
        proof {
            lemma_shape_drop_last(member_nested@, init@, marker);
            lemma_took_twice(
                c0,
                c1,
                columns@,
                leaf_count_from(fields@, k_before as nat),
                leaf_count(fields@[k as int].dtype),
            );
            lemma_took_twice(
                t0,
                t1,
                types@,
                leaf_count_from(fields@, k_before as nat),
                leaf_count(fields@[k as int].dtype),
            );
        }
        if strict {
            let member_validity = match member_nested.pop() {
                Some((_, _, validity)) => validity,
                None => unreached(),
            };
            if !same_validity(&freeze(member_validity), &frozen) {
                proof {
                    assert(members(c0, t0, fields@, markers, strict, k as nat) == Err::<
                        MembersView,
                        Error,
                    >(Error::ValidityMismatch));
                    lemma_members_error(c0, t0, fields@, markers, strict, k as nat, 0);
                }
                return Err(Error::ValidityMismatch);
            }
        }
        proof {
            let ghost earlier = m;
            m = MembersView {
                rest: earlier.rest,
                length: earlier.length,
                validity: earlier.validity,
                arrays: seq![array@] + earlier.arrays,
            };
            assert forall|j: int| 0 <= j < n - k implies (if j < n - k_before {
                field_arrays@[j]
            } else {
                array
            })@ == #[trigger] m.arrays[n - k - 1 - j] by {
                if j < n - k_before {
                    assert(m.arrays[n - k - 1 - j] == earlier.arrays[n - k_before - 1 - j]);
                }
            }
        }
        field_arrays.push(array);
    }
    proof {
        lemma_leaf_count_from(fields@, 0);
    }
    let arrays = reversed(field_arrays);
    proof {
        lemma_arrays_view(arrays@, arrays@.len());
        assert(arrays_view(arrays@, arrays@.len()) =~= m.arrays);
    }
    Ok((nested, length, frozen, arrays))
}

/// Reassembles the value of a schema node from the leaf columns at the end
/// of the two stacks, and takes those columns and their types off the stacks.
///
/// `init` holds the markers of the levels above the node.  With `strict`,
/// the members of every struct must agree on which rows of the struct are
/// null; without it, the last member is trusted.
pub fn reconstruct(
    columns: &mut Vec<LeafColumn>,
    types: &mut Vec<PhysicalType>,
    field: &Field,
    init: Vec<InitNested>,
    strict: bool,
) -> (r: Result<(NestedState, Array), Error>)
    requires
        field.wf(),
    ensures
        reassembled_view(r) == reassembly(old(columns)@, old(types)@, *field, init@, strict),
        r matches Ok((nested, _)) ==> shape_matches(nested@, init@),
        r is Ok ==> took(old(columns)@, final(columns)@, leaf_count(field.dtype)),
        r is Ok ==> took(old(types)@, final(types)@, leaf_count(field.dtype)),
        r is Ok && old(columns)@.len() == leaf_count(field.dtype) ==> final(columns)@.len() == 0,
        r is Ok && old(types)@.len() == leaf_count(field.dtype) ==> final(types)@.len() == 0,
    decreases *field,
{
    match &field.dtype {
        DataType::List(inner) => {
            let ghost outer = init@;
            let marker = InitNested::List(field.is_nullable);
            let mut init = init;
            init.push(marker);
            let (mut nested, array) = match reconstruct(columns, types, inner, init, strict) {
                Ok(done) => done,
                Err(e) => {
                    return Err(e);
                },
            };
            proof {
                lemma_shape_drop_last(nested@, outer, marker);
            }
            let array = create_list(&field.dtype, &mut nested, array);
            Ok((nested, array))
        },
        DataType::LargeList(inner) => {
            let ghost outer = init@;
            let marker = InitNested::List(field.is_nullable);
            let mut init = init;
            init.push(marker);
            let (mut nested, array) = match reconstruct(columns, types, inner, init, strict) {
                Ok(done) => done,
                Err(e) => {
                    return Err(e);
                },
            };
            proof {
                lemma_shape_drop_last(nested@, outer, marker);
            }
            let array = create_list(&field.dtype, &mut nested, array);
            Ok((nested, array))
        },
        DataType::FixedSizeList(inner, width) => {
            let ghost outer = init@;
            let marker = InitNested::FixedSizeList(field.is_nullable, *width);
            let mut init = init;
            init.push(marker);
            let (mut nested, array) = match reconstruct(columns, types, inner, init, strict) {
                Ok(done) => done,
                Err(e) => {
                    return Err(e);
                },
            };
            proof {
                lemma_shape_drop_last(nested@, outer, marker);
            }
            let array = create_list(&field.dtype, &mut nested, array);
            Ok((nested, array))
        },
        DataType::Mapping(inner, _) => {
            let ghost outer = init@;
            let marker = InitNested::List(field.is_nullable);
            let mut init = init;
            init.push(marker);
            let (mut nested, array) = match reconstruct(columns, types, inner, init, strict) {
                Ok(done) => done,
                Err(e) => {
                    return Err(e);
                },
            };
            proof {
                lemma_shape_drop_last(nested@, outer, marker);
            }
            let array = create_map(&field.dtype, &mut nested, array);
            Ok((nested, array))
        },
        DataType::Struct(fields) => {
            // The columns of the members lie in declared order, and each
            // member takes its own off the end: so the last member goes first.
            if fields.len() == 0 {
                return Err(Error::EmptyStruct);
            }
            proof {
                assert(decreases_to!(field.dtype => field.dtype->Struct_0));
            }
            let marker = InitNested::Struct(field.is_nullable);
            match reconstruct_members(columns, types, fields, &init, marker, strict) {
                Ok((nested, length, validity, arrays)) => Ok(
                    (nested, Array::Struct { length, fields: arrays, validity }),
                ),
                Err(e) => Err(e),
            }
        },
        DataType::Float16 => Err(Error::UnsupportedType(field.dtype.kind())),
        DataType::FixedSizeBinary(_) => Err(Error::UnsupportedType(field.dtype.kind())),
        _ => reconstruct_leaf(columns, types, field, init),
    }
}

/// Reassembles the value of one top-level field from its leaf columns.
///
/// `columns` and `types` hold one decoded leaf column and one physical type
/// for each leaf of the schema, in depth-first order; the leaves of `field`
/// are taken off their ends.  `init` holds the markers of the levels above
/// the field, none for a field at the root.  With `strict`, the members of
/// every struct must agree on which rows of the struct are null.
pub fn columns_to_iter_recursive(
    columns: Vec<LeafColumn>,
    types: Vec<PhysicalType>,
    field: Field,
    init: Vec<InitNested>,
    strict: bool,
) -> (r: Result<(NestedState, Array), Error>)
    requires
        field.wf(),
    ensures
        reassembled_view(r) == reassembly(columns@, types@, field, init@, strict),
        r matches Ok((nested, _)) ==> shape_matches(nested@, init@),
        r is Ok ==> leaf_count(field.dtype) <= columns@.len(),
        r is Ok ==> leaf_count(field.dtype) <= types@.len(),
{
    let mut columns = columns;
    let mut types = types;
    reconstruct(&mut columns, &mut types, &field, init, strict)
}

} // verus!
