use parquet_nested::array::{Array, Values};
use parquet_nested::nested::{create_list, create_map};
use parquet_nested::nested_utils::{
    freeze, freeze_validity, same_bits, same_validity, InitNested, Nested, NestedContent,
    NestedState,
};
use parquet_nested::schema::{DataType, Field};
use parquet_nested::utils::{comma_delimited, fmt_column_delimited};

fn item() -> Field {
    Field {
        name: "item".to_string(),
        dtype: DataType::Int32,
        is_nullable: false,
        is_enum: false,
        is_categorical: false,
    }
}

fn numbers(n: i32) -> Array {
    Array::Leaf { values: Values::Int32((0..n).collect()), validity: None }
}

#[test]
fn validity_collapses_when_nothing_is_null() {
    assert_eq!(freeze_validity(vec![]), None);
    assert_eq!(freeze_validity(vec![true, true]), None);
    assert_eq!(freeze_validity(vec![true, false]), Some(vec![true, false]));
    assert_eq!(freeze_validity(vec![false]), Some(vec![false]));
    assert_eq!(freeze(None), None);
    assert_eq!(freeze(Some(vec![true])), None);
    assert_eq!(freeze(Some(vec![false, true])), Some(vec![false, true]));
}

#[test]
fn bitmaps_are_compared_flag_by_flag() {
    assert!(same_bits(&vec![], &vec![]));
    assert!(same_bits(&vec![true, false], &vec![true, false]));
    assert!(!same_bits(&vec![true, false], &vec![true, true]));
    assert!(!same_bits(&vec![true], &vec![true, true]));
    assert!(same_validity(&None, &None));
    assert!(same_validity(&Some(vec![false]), &Some(vec![false])));
    assert!(!same_validity(&Some(vec![false]), &None));
    assert!(!same_validity(&None, &Some(vec![])));
}

#[test]
fn levels_are_matched_against_markers() {
    let list = Nested {
        validity: None,
        length: 1,
        content: NestedContent::List { offsets: vec![0] },
    };
    let fixed = Nested { validity: None, length: 1, content: NestedContent::FixedSizeList { width: 2 } };
    let row = Nested { validity: None, length: 1, content: NestedContent::Struct };
    let flat = Nested { validity: None, length: 1, content: NestedContent::Primitive };
    assert!(list.matches(&InitNested::List(true)));
    assert!(!list.matches(&InitNested::Struct(true)));
    assert!(fixed.matches(&InitNested::FixedSizeList(false, 2)));
    assert!(!fixed.matches(&InitNested::FixedSizeList(false, 3)));
    assert!(!fixed.matches(&InitNested::List(false)));
    assert!(row.matches(&InitNested::Struct(false)));
    assert!(!row.matches(&InitNested::Primitive(false)));
    assert!(flat.matches(&InitNested::Primitive(true)));
    assert!(!flat.matches(&InitNested::List(true)));

    let state = NestedState { nested: vec![list.clone(), row.clone()] };
    assert_eq!(state.len(), 2);
    assert!(state.matches(&vec![InitNested::List(false), InitNested::Struct(true)]));
    assert!(!state.matches(&vec![InitNested::Struct(false), InitNested::List(true)]));
    assert!(!state.matches(&vec![InitNested::List(false)]));
    assert!(!state.matches(&vec![
        InitNested::List(false),
        InitNested::Struct(true),
        InitNested::Primitive(true)
    ]));
    assert!(NestedState { nested: vec![] }.matches(&vec![]));
}

#[test]
fn popping_a_level_hands_out_its_parts() {
    let mut state = NestedState {
        nested: vec![
            Nested { validity: Some(vec![true]), length: 1, content: NestedContent::Struct },
            Nested {
                validity: Some(vec![true, false]),
                length: 2,
                content: NestedContent::List { offsets: vec![0, 3] },
            },
        ],
    };
    assert_eq!(state.last(), Some(&NestedContent::List { offsets: vec![0, 3] }));
    assert_eq!(state.pop(), Some((2, vec![0, 3], Some(vec![true, false]))));
    assert_eq!(state.last(), Some(&NestedContent::Struct));
    assert_eq!(state.pop(), Some((1, vec![], Some(vec![true]))));
    assert_eq!(state.last(), None);
    assert_eq!(state.pop(), None);
    assert_eq!(state.len(), 0);
}

#[test]
fn list_builder_takes_the_innermost_level() {
    let above = Nested { validity: None, length: 1, content: NestedContent::Struct };
    let level = Nested {
        validity: Some(vec![true, true, false]),
        length: 3,
        content: NestedContent::List { offsets: vec![0, 1, 4] },
    };
    let mut state = NestedState { nested: vec![above.clone(), level] };
    let array = create_list(&DataType::List(Box::new(item())), &mut state, numbers(4));
    assert_eq!(state, NestedState { nested: vec![above] });
    assert_eq!(
        array,
        Array::List {
            large: false,
            offsets: vec![0, 1, 4, 4],
            values: Box::new(numbers(4)),
            validity: Some(vec![true, true, false]),
        }
    );
    assert_eq!(array.len(), 3);
    assert_eq!(array.list_start(0), Some(0));
    assert_eq!(array.list_start(2), Some(4));
    assert_eq!(array.list_start(3), Some(4));
    assert_eq!(array.list_start(4), None);
}

#[test]
fn fixed_size_list_offsets_follow_from_the_width() {
    let level = Nested {
        validity: Some(vec![true, true]),
        length: 2,
        content: NestedContent::FixedSizeList { width: 3 },
    };
    let mut state = NestedState { nested: vec![level] };
    let array = create_list(&DataType::FixedSizeList(Box::new(item()), 3), &mut state, numbers(6));
    assert_eq!(state.len(), 0);
    assert_eq!(
        array,
        Array::FixedSizeList { width: 3, length: 2, values: Box::new(numbers(6)), validity: None }
    );
    assert_eq!(array.len(), 2);
    assert_eq!(array.list_start(0), Some(0));
    assert_eq!(array.list_start(1), Some(3));
    assert_eq!(array.list_start(2), Some(6));
    assert_eq!(array.list_start(3), None);
    let huge = Array::FixedSizeList {
        width: usize::MAX,
        length: 4,
        values: Box::new(numbers(0)),
        validity: None,
    };
    assert_eq!(huge.list_start(1), Some(usize::MAX));
    assert_eq!(huge.list_start(2), None);
    assert_eq!(numbers(3).list_start(0), None);
}

#[test]
fn map_builder_lays_entries_out_as_a_list() {
    let level = Nested {
        validity: None,
        length: 2,
        content: NestedContent::List { offsets: vec![0, 2] },
    };
    let mut state = NestedState { nested: vec![level] };
    let array = create_map(&DataType::Mapping(Box::new(item()), false), &mut state, numbers(5));
    assert_eq!(state.len(), 0);
    assert_eq!(
        array,
        Array::Mapping { offsets: vec![0, 2, 5], entries: Box::new(numbers(5)), validity: None }
    );
    assert_eq!(array.len(), 2);
    assert_eq!(array.list_start(1), Some(2));
}

#[test]
fn lengths_of_buffers() {
    assert_eq!(Values::Null(4).len(), 4);
    assert_eq!(Values::Boolean(vec![true]).len(), 1);
    assert_eq!(Values::Binary(vec![vec![1, 2], vec![]]).len(), 2);
    assert_eq!(Values::FixedSizeBinary { width: 4, bytes: vec![0; 12] }.len(), 3);
    assert_eq!(Values::FixedSizeBinary { width: 0, bytes: vec![] }.len(), 0);
    assert_eq!(Values::Categorical { keys: vec![0, 0, 0], dictionary: vec![vec![1]] }.len(), 3);
    assert_eq!(
        Array::Struct { length: 7, fields: vec![], validity: None }.len(),
        7
    );
}

fn names(items: &[&str]) -> Vec<String> {
    items.iter().map(|s| s.to_string()).collect()
}

#[test]
fn comma_delimited_wraps_the_items_in_brackets() {
    assert_eq!(comma_delimited("f".to_string(), &names(&["a", "b", "c"])), "f(a, b, c)");
    assert_eq!(comma_delimited(String::new(), &names(&["a"])), "(a)");
    assert_eq!(comma_delimited("héllo".to_string(), &names(&["ü", ""])), "héllo(ü, )");
    // With no item the bracket and the last character before it are taken back.
    assert_eq!(comma_delimited("sum".to_string(), &[]), "su)");
    assert_eq!(comma_delimited(String::new(), &[]), ")");
}

#[test]
fn column_delimited_puts_the_separator_between_items() {
    assert_eq!(fmt_column_delimited(&names(&["a", "b", "c"]), "[", "]"), "[a, b, c]");
    assert_eq!(fmt_column_delimited(&names(&["a"]), "{", "}"), "{a}");
    assert_eq!(fmt_column_delimited(&[], "(", ")"), "()");
    assert_eq!(fmt_column_delimited(&names(&["x", "y"]), "", ""), "x, y");
}
