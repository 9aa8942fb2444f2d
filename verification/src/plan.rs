//! What to ask of the page-level decoder: for each leaf column of a schema,
//! the markers of the levels above it and the decoder that will read it.

use crate::error::Error;
use crate::leaf::{decoder_reads, leaf_decoder, select_decoder, LeafColumn, LeafDecoder};
use crate::nested::{
    copy_markers, leaf_count_from, lemma_leaf_count_from, member, member_stack, members,
    reassembly, validity_fits, Reassembled,
};
use crate::nested_utils::{shape_matches, InitNested};
use crate::schema::{leaf_count, leaf_count_of, DataType, Field, PhysicalType};
use vstd::prelude::*;

verus! {

/// What is asked of the page-level decoder for one leaf column.
#[derive(Clone, Debug, PartialEq, Eq)]
pub struct LeafRequest {
    /// The markers of the levels from the root down to the leaf, the leaf's
    /// own `Primitive` marker last.
    pub markers: Vec<InitNested>,
    /// The decoder that will read the column, which fixes how its values
    /// are to be handed over.
    pub decoder: LeafDecoder,
}

/// The model of [`LeafRequest`].
pub struct LeafRequestView {
    pub markers: Seq<InitNested>,
    pub decoder: LeafDecoder,
}

impl View for LeafRequest {
    type V = LeafRequestView;

    open spec fn view(&self) -> LeafRequestView {
        LeafRequestView { markers: self.markers@, decoder: self.decoder }
    }
}

/// The models of a list of requests.
pub open spec fn requests_view(requests: Seq<LeafRequest>) -> Seq<LeafRequestView> {
    requests.map_values(|request: LeafRequest| request@)
}

/// The requests for the leaf columns under a schema node, in the order of
/// the columns.  The types of those columns are the last on `types`.
pub open spec fn requests(types: Seq<PhysicalType>, field: Field, init: Seq<InitNested>) -> Result<
    Seq<LeafRequestView>,
    Error,
>
    decreases field, 0nat,
{
    match field.dtype {
        DataType::List(inner) => requests(
            types,
            *inner,
            init.push(InitNested::List(field.is_nullable)),
        ),
        DataType::LargeList(inner) => requests(
            types,
            *inner,
            init.push(InitNested::List(field.is_nullable)),
        ),
        DataType::FixedSizeList(inner, width) => requests(
            types,
            *inner,
            init.push(InitNested::FixedSizeList(field.is_nullable, width)),
        ),
        DataType::Mapping(inner, _) => requests(
            types,
            *inner,
            init.push(InitNested::List(field.is_nullable)),
        ),
        DataType::Struct(fields) => if fields@.len() == 0 {
            Err(Error::EmptyStruct)
        } else {
            member_requests(types, fields@, init.push(InitNested::Struct(field.is_nullable)), 0)
        },
        DataType::Float16 => Err(Error::UnsupportedType(field.dtype.kind_spec())),
        DataType::FixedSizeBinary(_) => Err(Error::UnsupportedType(field.dtype.kind_spec())),
        _ => if types.len() == 0 {
            Err(Error::MissingColumn)
        } else {
            match leaf_decoder(field, types.last()) {
                Err(e) => Err(e),
                Ok(decoder) => Ok(
                    seq![
                        LeafRequestView {
                            markers: init.push(InitNested::Primitive(field.is_nullable)),
                            decoder,
                        },
                    ],
                ),
            }
        },
    }
}

/// The requests for the leaf columns under the members `from..` of a struct.
pub open spec fn member_requests(
    types: Seq<PhysicalType>,
    fields: Seq<Field>,
    init: Seq<InitNested>,
    from: nat,
) -> Result<Seq<LeafRequestView>, Error>
    decreases fields, fields.len() - from,
{
    if from >= fields.len() {
        Err(Error::EmptyStruct)
    } else if from + 1 == fields.len() {
        requests(member_stack(types, fields, from), fields[from as int], init)
    } else {
        match member_requests(types, fields, init, from + 1) {
            Err(e) => Err(e),
            Ok(later) => match requests(
                member_stack(types, fields, from),
                fields[from as int],
                init,
            ) {
                Err(e) => Err(e),
                Ok(this) => Ok(this + later),
            },
        }
    }
}

/// The model of the outcome of planning.
pub open spec fn planned_view(r: Result<Vec<LeafRequest>, Error>) -> Result<
    Seq<LeafRequestView>,
    Error,
> {
    match r {
        Ok(requests) => Ok(requests_view(requests@)),
        Err(e) => Err(e),
    }
}

/// A failure among the later members is the failure of the earlier ones too.
proof fn lemma_member_requests_error(
    types: Seq<PhysicalType>,
    fields: Seq<Field>,
    init: Seq<InitNested>,
    from: nat,
    to: nat,
)
    requires
        to <= from < fields.len(),
        member_requests(types, fields, init, from) is Err,
    ensures
        member_requests(types, fields, init, to) == member_requests(types, fields, init, from),
    decreases from - to,
{
    if to < from {
        lemma_member_requests_error(types, fields, init, from, to + 1);
    }
}

/// Plans the leaves of a schema node whose types are `types[..end]`, and
/// says where the types of the node begin.
fn collect(types: &Vec<PhysicalType>, end: usize, field: &Field, init: Vec<InitNested>) -> (r:
    Result<(Vec<LeafRequest>, usize), Error>)
    requires
        end <= types@.len(),
        field.wf(),
    ensures
        match r {
            Ok((found, rest)) => {
                &&& requests(types@.take(end as int), *field, init@) == Ok::<
                    Seq<LeafRequestView>,
                    Error,
                >(requests_view(found@))
                &&& found@.len() == leaf_count(field.dtype)
                &&& rest + leaf_count(field.dtype) == end
            },
            Err(e) => requests(types@.take(end as int), *field, init@) == Err::<
                Seq<LeafRequestView>,
                Error,
            >(e),
        },
    decreases *field,
{
    match &field.dtype {
        DataType::List(inner) => {
            let mut init = init;
            init.push(InitNested::List(field.is_nullable));
            collect(types, end, inner, init)
        },
        DataType::LargeList(inner) => {
            let mut init = init;
            init.push(InitNested::List(field.is_nullable));
            collect(types, end, inner, init)
        },
        DataType::FixedSizeList(inner, width) => {
            let mut init = init;
            init.push(InitNested::FixedSizeList(field.is_nullable, *width));
            collect(types, end, inner, init)
        },
        DataType::Mapping(inner, _) => {
            let mut init = init;
            init.push(InitNested::List(field.is_nullable));
            collect(types, end, inner, init)
        },
        DataType::Struct(fields) => {
            if fields.len() == 0 {
                return Err(Error::EmptyStruct);
            }
            proof {
                assert(decreases_to!(field.dtype => field.dtype->Struct_0));
            }
            collect_members(types, end, fields, &init, InitNested::Struct(field.is_nullable))
        },
        DataType::Float16 => Err(Error::UnsupportedType(field.dtype.kind())),
        DataType::FixedSizeBinary(_) => Err(Error::UnsupportedType(field.dtype.kind())),
        _ => {
            if end == 0 {
                return Err(Error::MissingColumn);
            }
            let decoder = match select_decoder(field, types[end - 1]) {
                Ok(decoder) => decoder,
                Err(e) => {
                    return Err(e);
                },
            };
            let mut markers = init;
            markers.push(InitNested::Primitive(field.is_nullable));
            let mut found: Vec<LeafRequest> = Vec::with_capacity(1);
            found.push(LeafRequest { markers, decoder });
            proof {
                assert(requests_view(found@) =~= seq![found@[0]@]);
            }
            Ok((found, end - 1))
        },
    }
}

/// Plans the leaves of the members of a struct, from the last member to
/// the first.
fn collect_members(
    types: &Vec<PhysicalType>,
    end: usize,
    fields: &Vec<Field>,
    init: &Vec<InitNested>,
    marker: InitNested,
) -> (r: Result<(Vec<LeafRequest>, usize), Error>)
    requires
        end <= types@.len(),
        fields@.len() > 0,
        forall|i: int| 0 <= i < fields@.len() ==> (#[trigger] fields@[i]).wf(),
    ensures
        match r {
            Ok((found, rest)) => {
                &&& member_requests(types@.take(end as int), fields@, init@.push(marker), 0) == Ok::<
                    Seq<LeafRequestView>,
                    Error,
                >(requests_view(found@))
                &&& found@.len() == leaf_count_of(fields@, fields@.len())
                &&& rest + leaf_count_of(fields@, fields@.len()) == end
            },
            Err(e) => member_requests(types@.take(end as int), fields@, init@.push(marker), 0)
                == Err::<Seq<LeafRequestView>, Error>(e),
        },
    decreases *fields,
{
    let ghost stack = types@.take(end as int);
    let ghost markers = init@.push(marker);
    let n: usize = fields.len();
    let mut k: usize = n;
    let mut rest: usize = end;
    let mut later: Vec<LeafRequest> = Vec::new();
    proof {
        lemma_leaf_count_from(fields@, (n - 1) as nat);
    }
    while k > 0
        invariant
            k <= n,
            n == fields@.len(),
            n > 0,
            end <= types@.len(),
            stack == types@.take(end as int),
            markers == init@.push(marker),
            forall|i: int| 0 <= i < fields@.len() ==> (#[trigger] fields@[i]).wf(),
            rest + leaf_count_from(fields@, k as nat) == end,
            later@.len() == leaf_count_from(fields@, k as nat),
            k == n ==> later@.len() == 0,
            k < n ==> member_requests(stack, fields@, markers, k as nat) == Ok::<
                Seq<LeafRequestView>,
                Error,
            >(requests_view(later@)),
        decreases k,
    {
        let ghost k_before = k;
        k = k - 1;
        let mut member_init = copy_markers(init);
        member_init.push(marker);
        proof {
            assert(decreases_to!(*fields => fields[k as int]));
            lemma_leaf_count_from(fields@, k as nat);
            assert(member_stack(stack, fields@, k as nat) =~= types@.take(rest as int));
        }
        let (mut this, before) = match collect(types, rest, &fields[k], member_init) {
            Ok(done) => done,
            Err(e) => {
                proof {
                    assert(member_requests(stack, fields@, markers, k as nat) == Err::<
                        Seq<LeafRequestView>,
                        Error,
                    >(e));
                    lemma_member_requests_error(stack, fields@, markers, k as nat, 0);
                }
                return Err(e);
            },
        };
        proof {
            assert(requests_view(this@ + later@) =~= requests_view(this@) + requests_view(later@));
            if k_before == n {
                assert(requests_view(this@ + later@) =~= requests_view(this@));
            }
        }
        this.append(&mut later);
        later = this;
        rest = before;
    }
    proof {
        lemma_leaf_count_from(fields@, 0);
    }
    Ok((later, rest))
}

/// Plans what to ask of the page-level decoder for the leaf columns of a
/// field, in the order of the columns.  The types of those columns are the
/// last on `types`; `init` holds the markers of the levels above the field.
pub fn leaf_requests(types: &Vec<PhysicalType>, field: &Field, init: &Vec<InitNested>) -> (r:
    Result<Vec<LeafRequest>, Error>)
    requires
        field.wf(),
    ensures
        planned_view(r) == requests(types@, *field, init@),
        r matches Ok(found) ==> found@.len() == leaf_count(field.dtype) && found@.len()
            <= types@.len(),
{
    proof {
        assert(types@.take(types@.len() as int) =~= types@);
    }
    match collect(types, types.len(), field, copy_markers(init)) {
        Ok((found, _)) => Ok(found),
        Err(e) => Err(e),
    }
}

/// Whether a leaf column answers a request: it has one level of shape for
/// each marker above the leaf, each of the marker's kind; its validity, if
/// the decoder keeps one, has one flag for each value; and its values are
/// stored as the decoder reads them.
pub open spec fn conforms(column: LeafColumn, request: LeafRequestView) -> bool {
    &&& shape_matches(column.nested@, request.markers.drop_last())
    &&& request.decoder is Null || validity_fits(column)
    &&& decoder_reads(request.decoder, column.values@)
}

/// Whether the last columns of a stack answer the requests, one each.
pub open spec fn answers(columns: Seq<LeafColumn>, found: Seq<LeafRequestView>) -> bool {
    &&& found.len() <= columns.len()
    &&& forall|j: int|
        0 <= j < found.len() ==> conforms(
            #[trigger] columns[columns.len() - found.len() + j],
            found[j],
        )
}

/// A reassembly succeeds only on columns that answer the requests planned
/// for them: the plan does not fail, it has one request for each leaf of
/// the schema, there are as many types and columns at least, and each of
/// the last columns answers its request.
pub proof fn lemma_reassembly_answers(
    columns: Seq<LeafColumn>,
    types: Seq<PhysicalType>,
    field: Field,
    init: Seq<InitNested>,
    strict: bool,
)
    requires
        reassembly(columns, types, field, init, strict) is Ok,
    ensures
        requests(types, field, init) is Ok,
        requests(types, field, init)->Ok_0.len() == leaf_count(field.dtype),
        leaf_count(field.dtype) <= types.len(),
        answers(columns, requests(types, field, init)->Ok_0),
    decreases field, 0nat,
{
    match field.dtype {
        DataType::List(inner) => {
            lemma_reassembly_answers(
                columns,
                types,
                *inner,
                init.push(InitNested::List(field.is_nullable)),
                strict,
            );
        },
        DataType::LargeList(inner) => {
            lemma_reassembly_answers(
                columns,
                types,
                *inner,
                init.push(InitNested::List(field.is_nullable)),
                strict,
            );
        },
        DataType::FixedSizeList(inner, width) => {
            lemma_reassembly_answers(
                columns,
                types,
                *inner,
                init.push(InitNested::FixedSizeList(field.is_nullable, width)),
                strict,
            );
        },
        DataType::Mapping(inner, _) => {
            lemma_reassembly_answers(
                columns,
                types,
                *inner,
                init.push(InitNested::List(field.is_nullable)),
                strict,
            );
        },
        DataType::Struct(fields) => {
            lemma_members_answer(
                columns,
                types,
                fields@,
                init.push(InitNested::Struct(field.is_nullable)),
                strict,
                0,
            );
            lemma_leaf_count_from(fields@, 0);
        },
        _ => {
            let markers = init.push(InitNested::Primitive(field.is_nullable));
            assert(markers.drop_last() =~= init);
        },
    }
}

/// The same of the members `from..` of a struct.
pub proof fn lemma_members_answer(
    columns: Seq<LeafColumn>,
    types: Seq<PhysicalType>,
    fields: Seq<Field>,
    init: Seq<InitNested>,
    strict: bool,
    from: nat,
)
    requires
        members(columns, types, fields, init, strict, from) is Ok,
    ensures
        from < fields.len(),
        member_requests(types, fields, init, from) is Ok,
        member_requests(types, fields, init, from)->Ok_0.len() == leaf_count_from(fields, from),
        leaf_count_from(fields, from) <= types.len(),
        answers(columns, member_requests(types, fields, init, from)->Ok_0),
    decreases fields, fields.len() - from,
{
    assert(from < fields.len());
    lemma_leaf_count_from(fields, from);
    let own_columns = member_stack(columns, fields, from);
    let own_types = member_stack(types, fields, from);
    assert(member(columns, types, fields, init, strict, from) is Ok);
    if from + 1 == fields.len() {
        lemma_reassembly_answers(own_columns, own_types, fields[from as int], init, strict);
        assert(own_columns =~= columns);
        assert(own_types =~= types);
    } else {
        lemma_members_answer(columns, types, fields, init, strict, from + 1);
        lemma_reassembly_answers(own_columns, own_types, fields[from as int], init, strict);
        let later = member_requests(types, fields, init, from + 1)->Ok_0;
        let this = requests(own_types, fields[from as int], init)->Ok_0;
        let all = this + later;
        assert forall|j: int| 0 <= j < all.len() implies conforms(
            #[trigger] columns[columns.len() - all.len() + j],
            all[j],
        ) by {
            if j < this.len() {
                assert(columns[columns.len() - all.len() + j] == own_columns[own_columns.len()
                    - this.len() + j]);
            } else {
                assert(columns[columns.len() - all.len() + j] == columns[columns.len()
                    - later.len() + (j - this.len())]);
            }
        }
    }
}

/// A plan that does not fail has one request for each leaf of the schema,
/// and there are as many types at least.
pub proof fn lemma_requests_len(types: Seq<PhysicalType>, field: Field, init: Seq<InitNested>)
    requires
        requests(types, field, init) is Ok,
    ensures
        requests(types, field, init)->Ok_0.len() == leaf_count(field.dtype),
        leaf_count(field.dtype) <= types.len(),
    decreases field, 0nat,
{
    match field.dtype {
        DataType::List(inner) => {
            lemma_requests_len(types, *inner, init.push(InitNested::List(field.is_nullable)));
        },
        DataType::LargeList(inner) => {
            lemma_requests_len(types, *inner, init.push(InitNested::List(field.is_nullable)));
        },
        DataType::FixedSizeList(inner, width) => {
            lemma_requests_len(
                types,
                *inner,
                init.push(InitNested::FixedSizeList(field.is_nullable, width)),
            );
        },
        DataType::Mapping(inner, _) => {
            lemma_requests_len(types, *inner, init.push(InitNested::List(field.is_nullable)));
        },
        DataType::Struct(fields) => {
            lemma_member_requests_len(
                types,
                fields@,
                init.push(InitNested::Struct(field.is_nullable)),
                0,
            );
            lemma_leaf_count_from(fields@, 0);
        },
        _ => {},
    }
}

/// The same of the members `from..` of a struct.
pub proof fn lemma_member_requests_len(
    types: Seq<PhysicalType>,
    fields: Seq<Field>,
    init: Seq<InitNested>,
    from: nat,
)
    requires
        member_requests(types, fields, init, from) is Ok,
    ensures
        from < fields.len(),
        member_requests(types, fields, init, from)->Ok_0.len() == leaf_count_from(fields, from),
        leaf_count_from(fields, from) <= types.len(),
    decreases fields, fields.len() - from,
{
    assert(from < fields.len());
    lemma_leaf_count_from(fields, from);
    let own_types = member_stack(types, fields, from);
    if from + 1 == fields.len() {
        lemma_requests_len(own_types, fields[from as int], init);
    } else {
        lemma_member_requests_len(types, fields, init, from + 1);
        lemma_requests_len(own_types, fields[from as int], init);
    }
}

/// Whether a reassembly succeeded or failed on the stored values alone: on
/// a value out of range, or, in strict mode, on members of a struct that
/// disagree on their validity.
pub open spec fn fails_on_values_only(r: Reassembled, strict: bool) -> bool {
    match r {
        Ok(_) => true,
        Err(Error::ValueOutOfRange(_)) => true,
        Err(Error::ValidityMismatch) => strict,
        Err(_) => false,
    }
}

/// Columns that answer the requests planned for them are enough: where the
/// plan does not fail and the last columns answer its requests, the
/// reassembly fails on the stored values alone, if it fails at all.
pub proof fn lemma_answers_suffice(
    columns: Seq<LeafColumn>,
    types: Seq<PhysicalType>,
    field: Field,
    init: Seq<InitNested>,
    strict: bool,
)
    requires
        requests(types, field, init) is Ok,
        answers(columns, requests(types, field, init)->Ok_0),
    ensures
        fails_on_values_only(reassembly(columns, types, field, init, strict), strict),
    decreases field, 0nat,
{
    match field.dtype {
        DataType::List(inner) => {
            lemma_answers_suffice(
                columns,
                types,
                *inner,
                init.push(InitNested::List(field.is_nullable)),
                strict,
            );
        },
        DataType::LargeList(inner) => {
            lemma_answers_suffice(
                columns,
                types,
                *inner,
                init.push(InitNested::List(field.is_nullable)),
                strict,
            );
        },
        DataType::FixedSizeList(inner, width) => {
            lemma_answers_suffice(
                columns,
                types,
                *inner,
                init.push(InitNested::FixedSizeList(field.is_nullable, width)),
                strict,
            );
        },
        DataType::Mapping(inner, _) => {
            lemma_answers_suffice(
                columns,
                types,
                *inner,
                init.push(InitNested::List(field.is_nullable)),
                strict,
            );
        },
        DataType::Struct(fields) => {
            lemma_members_suffice(
                columns,
                types,
                fields@,
                init.push(InitNested::Struct(field.is_nullable)),
                strict,
                0,
            );
        },
        _ => {
            let found = requests(types, field, init)->Ok_0;
            let markers = init.push(InitNested::Primitive(field.is_nullable));
            assert(markers.drop_last() =~= init);
            assert(conforms(columns[columns.len() - found.len() + 0], found[0]));
        },
    }
}

/// Whether the members of a struct were reassembled or failed on the
/// stored values alone.
pub open spec fn members_fail_on_values_only(
    columns: Seq<LeafColumn>,
    types: Seq<PhysicalType>,
    fields: Seq<Field>,
    init: Seq<InitNested>,
    strict: bool,
    from: nat,
) -> bool {
    match members(columns, types, fields, init, strict, from) {
        Ok(_) => true,
        Err(Error::ValueOutOfRange(_)) => true,
        Err(Error::ValidityMismatch) => strict,
        Err(_) => false,
    }
}

/// The same of the members `from..` of a struct.
pub proof fn lemma_members_suffice(
    columns: Seq<LeafColumn>,
    types: Seq<PhysicalType>,
    fields: Seq<Field>,
    init: Seq<InitNested>,
    strict: bool,
    from: nat,
)
    requires
        member_requests(types, fields, init, from) is Ok,
        answers(columns, member_requests(types, fields, init, from)->Ok_0),
    ensures
        members_fail_on_values_only(columns, types, fields, init, strict, from),
    decreases fields, fields.len() - from,
{
    assert(from < fields.len());
    lemma_leaf_count_from(fields, from);
    let own_columns = member_stack(columns, fields, from);
    let own_types = member_stack(types, fields, from);
    let found = member_requests(types, fields, init, from)->Ok_0;
    if from + 1 == fields.len() {
        assert(own_columns =~= columns);
        assert(own_types =~= types);
        lemma_answers_suffice(own_columns, own_types, fields[from as int], init, strict);
        assert(member(columns, types, fields, init, strict, from) == reassembly(
            own_columns,
            own_types,
            fields[from as int],
            init,
            strict,
        ));
    } else {
        let later = member_requests(types, fields, init, from + 1)->Ok_0;
        let this = requests(own_types, fields[from as int], init)->Ok_0;
        assert(found == this + later);
        lemma_member_requests_len(types, fields, init, from + 1);
        assert forall|j: int| 0 <= j < later.len() implies conforms(
            #[trigger] columns[columns.len() - later.len() + j],
            later[j],
        ) by {
            assert(conforms(
                columns[columns.len() - found.len() + (this.len() + j)],
                found[this.len() + j],
            ));
        }
        lemma_members_suffice(columns, types, fields, init, strict, from + 1);
        assert forall|j: int| 0 <= j < this.len() implies conforms(
            #[trigger] own_columns[own_columns.len() - this.len() + j],
            this[j],
        ) by {
            assert(conforms(columns[columns.len() - found.len() + j], found[j]));
        }
        lemma_answers_suffice(own_columns, own_types, fields[from as int], init, strict);
        assert(member(columns, types, fields, init, strict, from) == reassembly(
            own_columns,
            own_types,
            fields[from as int],
            init,
            strict,
        ));
    }
}

} // verus!
