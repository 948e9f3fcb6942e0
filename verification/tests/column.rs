use qvd::error::QvdErrorKind;
use qvd::{CellValue, Column, Header};

fn float(value: f64) -> CellValue {
    CellValue::Float(value.to_bits())
}

fn column(name: &str, symbols: Vec<CellValue>, indexes: Vec<i64>) -> Column {
    Column::new(Header(name.into()), symbols, indexes).unwrap()
}

#[test]
fn test_row_indexes_for_string() {
    let column = column(
        "Quarter",
        (1..=4).map(|i| CellValue::Text(format!("Q{}", i))).collect(),
        vec![0, 0, 0, 1, -2, 1, 2, 2, 2, 3, 3, 3],
    );
    let row_indexes = column.find_row_indexes(&"Q2".into());
    assert_eq!(row_indexes, vec![3, 5]);
}

#[test]
fn test_row_indexes_for_int() {
    let column = column(
        "Integer",
        (1..=12).map(|i| CellValue::Int(i)).collect(),
        vec![0, 1, 2, 3, 4, 5, 6, 6, 8, 9, 10, 11],
    );
    let row_indexes = column.find_row_indexes(&7.into());
    assert_eq!(row_indexes, vec![6, 7]);
}

#[test]
fn test_row_indexes_for_float() {
    let column = column(
        "Float",
        (1..=12).map(|i| float(i as f64)).collect(),
        vec![0, 1, 2, 3, 4, 5, 6, 6, 8, 9, 10, 11],
    );
    let row_indexes = column.find_row_indexes(&float(7.));
    assert_eq!(row_indexes, vec![6, 7]);
}

#[test]
fn test_value_from_row_index() {
    let column = column(
        "Float",
        (1..=12).map(|i| float(i as f64)).collect(),
        vec![0, 1, 2, 3, 4, 5, 6, 7, 8, 9, 10, 11],
    );
    let value = column.indexes_to_values(&[3]);
    assert_eq!(*value[0], float(4.));
}

#[test]
fn new_rejects_a_position_behind_the_dictionary() {
    let err = Column::new(Header("c".into()), vec![CellValue::Int(1)], vec![0, 1]).unwrap_err();
    assert_eq!(err.kind(), QvdErrorKind::Format);
    let err = Column::new(Header("c".into()), vec![], vec![0]).unwrap_err();
    assert_eq!(err.kind(), QvdErrorKind::Format);
    assert!(Column::new(Header("c".into()), vec![], vec![-1, -5]).is_ok());
    assert!(Column::new(Header("c".into()), vec![CellValue::Int(1)], vec![0, -1, 0]).is_ok());
}

#[test]
fn parts_are_kept() {
    let c = column("Quarter", vec!["Q1".into(), "Q2".into()], vec![1, 0, -2]);
    assert_eq!(c.header(), Header("Quarter".into()));
    assert_eq!(c.header(), Header::from("Quarter"));
    assert_eq!(c.row_count(), 3);
    assert_eq!(c.symbols(), &[CellValue::Text("Q1".into()), CellValue::Text("Q2".into())]);
    assert_eq!(c.indexes(), &[1, 0, -2]);
}

#[test]
fn negative_position_resolves_to_null() {
    let c = column("c", vec![CellValue::Int(5)], vec![0, -1, -2, i64::MIN]);
    assert_eq!(*c.resolve(-1), CellValue::Null);
    assert_eq!(*c.resolve(i64::MIN), CellValue::Null);
    assert_eq!(*c.resolve(0), CellValue::Int(5));
    assert_eq!(
        c.into_values(),
        vec![CellValue::Int(5), CellValue::Null, CellValue::Null, CellValue::Null]
    );
}

#[test]
fn column_without_dictionary_is_all_null() {
    let c = column("all Null", vec![], vec![-2, -2, -2]);
    assert_eq!(*c.resolve(-2), CellValue::Null);
    assert_eq!(c.as_values(), vec![&CellValue::Null, &CellValue::Null, &CellValue::Null]);
    assert_eq!(c.cell_value(1), Some(CellValue::Null));
    assert_eq!(c.find_row_indexes(&CellValue::Int(0)), Vec::<usize>::new());
}

#[test]
fn values_follow_the_rows() {
    let c = column("c", vec!["a".into(), "b".into(), 3.into()], vec![2, 0, -1, 1, 0]);
    let expected: Vec<CellValue> =
        vec![3.into(), "a".into(), CellValue::Null, "b".into(), "a".into()];
    assert_eq!(c.as_values(), expected.iter().collect::<Vec<_>>());
    assert_eq!(c.value_in_row(3), &CellValue::Text("b".into()));
    assert_eq!(c.into_values(), expected);
}

#[test]
fn cell_value_is_none_behind_the_last_row() {
    let c = column("c", vec![CellValue::Int(5)], vec![0, -1]);
    assert_eq!(c.cell_value(0), Some(CellValue::Int(5)));
    assert_eq!(c.cell_value(1), Some(CellValue::Null));
    assert_eq!(c.cell_value(2), None);
    assert_eq!(c.cell_value(usize::MAX), None);
}

#[test]
fn requested_rows_come_in_the_order_asked_and_missing_rows_are_null() {
    let c = column("c", vec![CellValue::Int(5), CellValue::Int(6)], vec![0, -1, 1]);
    assert_eq!(
        c.indexes_to_values(&[2, 0, 0, 7, 1]),
        vec![
            &CellValue::Int(6),
            &CellValue::Int(5),
            &CellValue::Int(5),
            &CellValue::Null,
            &CellValue::Null
        ]
    );
    assert_eq!(c.indexes_to_values(&[]), Vec::<&CellValue>::new());
}

#[test]
fn query_matches_every_equal_dictionary_entry() {
    // The dictionary holds the same text twice: rows that refer to either entry match.
    let c = column("c", vec!["x".into(), "y".into(), "x".into()], vec![2, 1, 0, -1, 2]);
    assert_eq!(c.find_row_indexes(&"x".into()), vec![0, 2, 4]);
    assert_eq!(c.find_row_indexes(&"y".into()), vec![1]);
    assert_eq!(c.find_row_indexes(&"z".into()), Vec::<usize>::new());
}

#[test]
fn query_answer_is_the_rows_with_the_value() {
    let c = column(
        "c",
        vec!["x".into(), 1.into(), float(1.0), "1".into()],
        vec![3, 1, 2, 0, -1, 1, 3, 2],
    );
    let values = c.as_values();
    for value in [CellValue::from("x"), 1.into(), float(1.0), "1".into(), 2.into()] {
        let found = c.find_row_indexes(&value);
        let expected: Vec<usize> =
            (0..values.len()).filter(|&row| *values[row] == value).collect();
        assert_eq!(found, expected);
    }
}

#[test]
fn values_of_different_types_are_not_equal() {
    assert_ne!(CellValue::Int(1), float(1.0));
    assert_ne!(CellValue::Int(1), CellValue::Text("1".into()));
    assert_ne!(CellValue::Null, CellValue::Int(0));
    assert_ne!(CellValue::Null, CellValue::Text(String::new()));
    assert_eq!(CellValue::Null, CellValue::Null);
    assert_eq!(float(2.5), float(2.5));
    assert_ne!(float(2.5), float(2.25));
    assert_eq!(CellValue::Text("a".into()), CellValue::from("a"));
    assert_eq!(CellValue::Int(7), CellValue::from(7));
}

#[test]
fn clone_keeps_the_value() {
    for value in [CellValue::from("x"), 1.into(), float(1.5), CellValue::Null] {
        assert_eq!(value.clone(), value);
    }
    assert_eq!(Header::from("h").clone(), Header::from("h"));
}
