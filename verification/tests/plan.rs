use parquet_nested::error::Error;
use parquet_nested::leaf::{decode, select_decoder, Int32Target, Int64Target, LeafDecoder};
use parquet_nested::array::{NumberKind, Values};
use parquet_nested::nested_utils::InitNested;
use parquet_nested::plan::{leaf_requests, LeafRequest};
use parquet_nested::schema::{DataType, Field, IntegerType, PhysicalType, TypeKind};

fn named(name: &str, dtype: DataType, is_nullable: bool) -> Field {
    Field { name: name.to_string(), dtype, is_nullable, is_enum: false, is_categorical: false }
}

fn rows() -> Field {
    named(
        "rows",
        DataType::List(Box::new(named(
            "row",
            DataType::Struct(vec![
                named("a", DataType::UInt32, true),
                named("b", DataType::Decimal(20, 2), false),
                named(
                    "c",
                    DataType::FixedSizeList(Box::new(named("item", DataType::Utf8View, true)), 3),
                    false,
                ),
            ]),
            true,
        ))),
        false,
    )
}

#[test]
fn requests_follow_the_columns_with_their_markers() {
    let types = vec![
        PhysicalType::Int64,
        PhysicalType::FixedLenByteArray(9),
        PhysicalType::ByteArray,
    ];
    let found = leaf_requests(&types, &rows(), &vec![]);
    let above = vec![InitNested::List(false), InitNested::Struct(true)];
    let with = |tail: &[InitNested]| {
        let mut markers = above.clone();
        markers.extend_from_slice(tail);
        markers
    };
    assert_eq!(
        found,
        Ok(vec![
            LeafRequest {
                markers: with(&[InitNested::Primitive(true)]),
                decoder: LeafDecoder::FromInt64(Int64Target::UInt32),
            },
            LeafRequest {
                markers: with(&[InitNested::Primitive(false)]),
                decoder: LeafDecoder::Decimal128(9),
            },
            LeafRequest {
                markers: with(&[InitNested::FixedSizeList(false, 3), InitNested::Primitive(true)]),
                decoder: LeafDecoder::Binary,
            },
        ])
    );
}

#[test]
fn requests_read_the_last_types_and_keep_the_markers_above() {
    let types = vec![PhysicalType::Boolean, PhysicalType::Double];
    let found = leaf_requests(
        &types,
        &named("x", DataType::Float64, true),
        &vec![InitNested::Struct(false)],
    );
    assert_eq!(
        found,
        Ok(vec![LeafRequest {
            markers: vec![InitNested::Struct(false), InitNested::Primitive(true)],
            decoder: LeafDecoder::Float64,
        }])
    );
}

#[test]
fn requests_fail_as_the_reassembly_would() {
    assert_eq!(
        leaf_requests(&vec![PhysicalType::Int32], &rows(), &vec![]),
        Err(Error::UnsupportedPhysical {
            logical: TypeKind::Utf8View,
            physical: PhysicalType::Int32
        })
    );
    assert_eq!(
        leaf_requests(&vec![PhysicalType::ByteArray], &rows(), &vec![]),
        Err(Error::MissingColumn)
    );
    assert_eq!(
        leaf_requests(
            &vec![PhysicalType::Int32, PhysicalType::FixedLenByteArray(17), PhysicalType::ByteArray],
            &rows(),
            &vec![]
        ),
        Err(Error::DecimalWidth { logical: TypeKind::Decimal, width: 17 })
    );
    assert_eq!(
        leaf_requests(&vec![], &named("s", DataType::Struct(vec![]), false), &vec![]),
        Err(Error::EmptyStruct)
    );
    assert_eq!(
        leaf_requests(&vec![PhysicalType::Int32], &named("h", DataType::Float16, false), &vec![]),
        Err(Error::UnsupportedType(TypeKind::Float16))
    );
}

#[test]
fn the_table_of_decoders() {
    let pick = |dtype: DataType, physical: PhysicalType| {
        select_decoder(&named("x", dtype, false), physical)
    };
    assert_eq!(pick(DataType::Null, PhysicalType::Int96), Ok(LeafDecoder::Null));
    assert_eq!(pick(DataType::Boolean, PhysicalType::Boolean), Ok(LeafDecoder::Boolean));
    assert_eq!(
        pick(DataType::Int8, PhysicalType::Int32),
        Ok(LeafDecoder::FromInt32(Int32Target::Int8))
    );
    assert_eq!(
        pick(DataType::Int16, PhysicalType::Int32),
        Ok(LeafDecoder::FromInt32(Int32Target::Int16))
    );
    assert_eq!(
        pick(DataType::Int32, PhysicalType::Int32),
        Ok(LeafDecoder::FromInt32(Int32Target::Int32))
    );
    assert_eq!(
        pick(DataType::Int64, PhysicalType::Int64),
        Ok(LeafDecoder::FromInt64(Int64Target::Int64))
    );
    assert_eq!(
        pick(DataType::UInt8, PhysicalType::Int32),
        Ok(LeafDecoder::FromInt32(Int32Target::UInt8))
    );
    assert_eq!(
        pick(DataType::UInt16, PhysicalType::Int32),
        Ok(LeafDecoder::FromInt32(Int32Target::UInt16))
    );
    assert_eq!(
        pick(DataType::UInt32, PhysicalType::Int32),
        Ok(LeafDecoder::FromInt32(Int32Target::UInt32))
    );
    assert_eq!(
        pick(DataType::UInt32, PhysicalType::Int64),
        Ok(LeafDecoder::FromInt64(Int64Target::UInt32))
    );
    assert_eq!(
        pick(DataType::UInt64, PhysicalType::Int64),
        Ok(LeafDecoder::FromInt64(Int64Target::UInt64))
    );
    assert_eq!(pick(DataType::Float32, PhysicalType::Float), Ok(LeafDecoder::Float32));
    assert_eq!(pick(DataType::Float64, PhysicalType::Double), Ok(LeafDecoder::Float64));
    assert_eq!(pick(DataType::BinaryView, PhysicalType::ByteArray), Ok(LeafDecoder::Binary));
    assert_eq!(pick(DataType::Utf8View, PhysicalType::ByteArray), Ok(LeafDecoder::Binary));
    assert_eq!(
        pick(DataType::Decimal(9, 0), PhysicalType::Int32),
        Ok(LeafDecoder::FromInt32(Int32Target::Decimal128))
    );
    assert_eq!(
        pick(DataType::Decimal(18, 0), PhysicalType::Int64),
        Ok(LeafDecoder::FromInt64(Int64Target::Decimal128))
    );
    assert_eq!(
        pick(DataType::Decimal(38, 0), PhysicalType::FixedLenByteArray(16)),
        Ok(LeafDecoder::Decimal128(16))
    );
    assert_eq!(
        pick(DataType::Decimal256(9, 0), PhysicalType::Int32),
        Ok(LeafDecoder::FromInt32(Int32Target::Decimal256))
    );
    assert_eq!(
        pick(DataType::Decimal256(18, 0), PhysicalType::Int64),
        Ok(LeafDecoder::FromInt64(Int64Target::Decimal256))
    );
    assert_eq!(
        pick(DataType::Decimal256(38, 0), PhysicalType::FixedLenByteArray(16)),
        Ok(LeafDecoder::Decimal256(16))
    );
    assert_eq!(
        pick(DataType::Decimal256(76, 0), PhysicalType::FixedLenByteArray(32)),
        Ok(LeafDecoder::Decimal256(32))
    );
    assert_eq!(
        pick(
            DataType::Dictionary(IntegerType::Int16, Box::new(DataType::Utf8View)),
            PhysicalType::ByteArray
        ),
        Ok(LeafDecoder::InlineDictionary(IntegerType::Int16))
    );
    let categorical = Field {
        name: "c".to_string(),
        dtype: DataType::Dictionary(IntegerType::UInt32, Box::new(DataType::Utf8View)),
        is_nullable: false,
        is_enum: false,
        is_categorical: true,
    };
    assert_eq!(select_decoder(&categorical, PhysicalType::ByteArray), Ok(LeafDecoder::Categorical));
    assert_eq!(
        select_decoder(&categorical, PhysicalType::Int32),
        Err(Error::UnsupportedPhysical {
            logical: TypeKind::Dictionary,
            physical: PhysicalType::Int32
        })
    );
    assert_eq!(
        pick(DataType::Int64, PhysicalType::Int32),
        Err(Error::UnsupportedPhysical { logical: TypeKind::Int64, physical: PhysicalType::Int32 })
    );
    assert_eq!(
        pick(DataType::Float32, PhysicalType::Double),
        Err(Error::UnsupportedPhysical {
            logical: TypeKind::Float32,
            physical: PhysicalType::Double
        })
    );
    assert_eq!(
        pick(
            DataType::List(Box::new(named("item", DataType::Int32, false))),
            PhysicalType::Int32
        ),
        Err(Error::UnsupportedType(TypeKind::List))
    );
}

#[test]
fn decoders_read_what_they_are_made_for_and_nothing_else() {
    assert_eq!(decode(LeafDecoder::Null, Values::Boolean(vec![true, true])), Ok(Values::Null(2)));
    assert_eq!(
        decode(LeafDecoder::FromInt32(Int32Target::Decimal128), Values::Int32(vec![-1])),
        Ok(Values::Decimal128(vec![-1]))
    );
    assert_eq!(
        decode(LeafDecoder::FromInt64(Int64Target::UInt32), Values::Int64(vec![7])),
        Ok(Values::UInt32(vec![7]))
    );
    assert_eq!(
        decode(LeafDecoder::FromInt64(Int64Target::UInt32), Values::Int64(vec![7, -7])),
        Err(Error::ValueOutOfRange(NumberKind::UInt32))
    );
    assert_eq!(
        decode(LeafDecoder::FromInt64(Int64Target::Int64), Values::Int32(vec![7])),
        Err(Error::MalformedColumn)
    );
    assert_eq!(
        decode(LeafDecoder::Boolean, Values::Int32(vec![1])),
        Err(Error::MalformedColumn)
    );
    assert_eq!(
        decode(LeafDecoder::Float32, Values::Float64(vec![1])),
        Err(Error::MalformedColumn)
    );
    assert_eq!(
        decode(LeafDecoder::Binary, Values::Categorical { keys: vec![], dictionary: vec![] }),
        Err(Error::MalformedColumn)
    );
    assert_eq!(
        decode(LeafDecoder::Categorical, Values::Binary(vec![])),
        Err(Error::MalformedColumn)
    );
    assert_eq!(
        decode(
            LeafDecoder::Decimal128(3),
            Values::FixedSizeBinary { width: 3, bytes: vec![0xff, 0xff, 0xfd, 0x00, 0x01, 0x00] }
        ),
        Ok(Values::Decimal128(vec![-3, 256]))
    );
    assert_eq!(
        decode(LeafDecoder::Decimal256(3), Values::Binary(vec![])),
        Err(Error::MalformedColumn)
    );
}

use parquet_nested::array::Array;
use parquet_nested::leaf::LeafColumn;
use parquet_nested::nested::columns_to_iter_recursive;
use parquet_nested::nested_utils::{Nested, NestedContent, NestedState};

/// A column of two rows that answers a request, as a page-level decoder would.
fn answer(request: &LeafRequest) -> LeafColumn {
    let above = &request.markers[..request.markers.len() - 1];
    let nested = above
        .iter()
        .map(|marker| match marker {
            InitNested::Primitive(_) => {
                Nested { validity: None, length: 2, content: NestedContent::Primitive }
            },
            InitNested::List(_) => Nested {
                validity: None,
                length: 2,
                content: NestedContent::List { offsets: vec![0, 1] },
            },
            InitNested::FixedSizeList(_, width) => Nested {
                validity: None,
                length: 2,
                content: NestedContent::FixedSizeList { width: *width },
            },
            InitNested::Struct(_) => {
                Nested { validity: None, length: 2, content: NestedContent::Struct }
            },
        })
        .collect();
    let values = match request.decoder {
        LeafDecoder::Null => Values::Null(2),
        LeafDecoder::Boolean => Values::Boolean(vec![true, false]),
        LeafDecoder::FromInt32(_) => Values::Int32(vec![1, 2]),
        LeafDecoder::FromInt64(_) => Values::Int64(vec![1, 2]),
        LeafDecoder::Float32 => Values::Float32(vec![0, 1]),
        LeafDecoder::Float64 => Values::Float64(vec![0, 1]),
        LeafDecoder::Binary | LeafDecoder::InlineDictionary(_) => {
            Values::Binary(vec![b"a".to_vec(), b"b".to_vec()])
        },
        LeafDecoder::Decimal128(width) | LeafDecoder::Decimal256(width) => {
            Values::FixedSizeBinary { width, bytes: vec![1; 2 * width] }
        },
        LeafDecoder::Categorical => {
            Values::Categorical { keys: vec![0, 0], dictionary: vec![b"a".to_vec()] }
        },
    };
    LeafColumn { nested: NestedState { nested }, values, validity: None }
}

#[test]
fn columns_that_answer_the_plan_are_reassembled() {
    let types = vec![
        PhysicalType::Int64,
        PhysicalType::FixedLenByteArray(9),
        PhysicalType::ByteArray,
    ];
    let found = leaf_requests(&types, &rows(), &vec![]).unwrap();
    assert_eq!(found.len(), 3);
    let columns: Vec<LeafColumn> = found.iter().map(answer).collect();
    for strict in [true, false] {
        let r = columns_to_iter_recursive(columns.clone(), types.clone(), rows(), vec![], strict);
        match r {
            Ok((nested, Array::List { values, offsets, .. })) => {
                assert_eq!(nested.len(), 0);
                assert_eq!(offsets, vec![0, 1, 2]);
                match *values {
                    Array::Struct { length, ref fields, .. } => {
                        assert_eq!(length, 2);
                        assert_eq!(fields.len(), 3);
                        assert_eq!(
                            fields[0],
                            Array::Leaf { values: Values::UInt32(vec![1, 2]), validity: None }
                        );
                        assert_eq!(
                            fields[1],
                            Array::Leaf {
                                values: Values::Decimal128(vec![0x010101010101010101; 2]),
                                validity: None
                            }
                        );
                        assert_eq!(
                            fields[2],
                            Array::FixedSizeList {
                                width: 3,
                                length: 2,
                                values: Box::new(Array::Leaf {
                                    values: Values::Binary(vec![b"a".to_vec(), b"b".to_vec()]),
                                    validity: None
                                }),
                                validity: None
                            }
                        );
                    },
                    ref other => panic!("unexpected {:?}", other),
                }
            },
            other => panic!("unexpected {:?}", other),
        }
    }
}

#[test]
fn columns_before_those_of_the_field_do_not_matter() {
    let types = vec![
        PhysicalType::Int64,
        PhysicalType::FixedLenByteArray(9),
        PhysicalType::ByteArray,
    ];
    let found = leaf_requests(&types, &rows(), &vec![]).unwrap();
    let columns: Vec<LeafColumn> = found.iter().map(answer).collect();
    let alone = columns_to_iter_recursive(columns.clone(), types.clone(), rows(), vec![], true);
    assert!(alone.is_ok());

    let mut more_columns = vec![
        LeafColumn {
            nested: NestedState { nested: vec![] },
            values: Values::Boolean(vec![true]),
            validity: None,
        };
        2
    ];
    more_columns.extend(columns);
    let mut more_types = vec![PhysicalType::Boolean, PhysicalType::Int96];
    more_types.extend(types);
    let behind = columns_to_iter_recursive(more_columns, more_types.clone(), rows(), vec![], true);
    assert_eq!(alone, behind);
    assert_eq!(leaf_requests(&more_types, &rows(), &vec![]), Ok(found));
}
