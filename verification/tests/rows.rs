use diesel_d1::connection::rows_from_records;
use diesel_d1::row::D1Row;
use diesel_d1::types::decode_i64;
use diesel_d1::value::D1Value;

fn num(i: i64) -> D1Value {
    let f = i as f64;
    D1Value::Number { bits: f.to_bits(), whole: i, exact: true }
}

#[test]
fn empty_result_set_yields_zero_rows() {
    let rows = rows_from_records(vec![]);
    assert!(rows.is_empty());
}

#[test]
fn rows_share_the_first_rows_column_names() {
    let records = vec![
        vec![(String::from("id"), num(1)), (String::from("name"), D1Value::Text(String::from("a")))],
        vec![
            (String::from("id"), num(2)),
            (String::from("name"), D1Value::Text(String::from("b"))),
            (String::from("extra"), num(9)),
        ],
    ];
    let rows = rows_from_records(records);
    assert_eq!(rows.len(), 2);
    for row in &rows {
        assert_eq!(row.field_count(), 2);
    }
    // a key absent from the first row's key set stays absent on every row,
    // even though the second record happens to carry it
    assert!(rows[0].get_by_name("extra").is_none());
    assert!(rows[1].get_by_name("extra").is_none());
}

#[test]
fn positional_lookup_is_bounds_checked_absence() {
    let row = D1Row::new(
        vec![(String::from("id"), num(5))],
        vec![String::from("id")],
    );
    assert_eq!(row.field_count(), 1);
    assert_eq!(row.idx(0), Some(0));
    assert_eq!(row.idx(1), None);
    assert!(row.get(0).is_some());
    assert!(row.get(7).is_none());
}

#[test]
fn field_lookup_resolves_by_name_and_decodes_on_demand() {
    let row = D1Row::new(
        vec![(String::from("id"), num(5)), (String::from("n"), num(6))],
        vec![String::from("id"), String::from("n")],
    );
    let field = row.get_by_name("n").unwrap();
    assert_eq!(field.field_name(), Some("n"));
    let value = field.value().unwrap();
    assert_eq!(decode_i64(value).unwrap(), 6);
    // repeated reads re-read the record and agree
    assert_eq!(decode_i64(field.value().unwrap()).unwrap(), 6);
    assert!(row.get_by_name("missing").is_none());
}

#[test]
fn field_value_is_absent_when_the_record_lacks_the_key() {
    // the shared name list says the column exists, this record lacks it
    let row = D1Row::new(
        vec![(String::from("id"), num(5))],
        vec![String::from("id"), String::from("n")],
    );
    let field = row.get_by_name("n").unwrap();
    assert!(field.value().is_none());
}
