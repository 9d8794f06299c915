use rusqlite::Connection;
use sqlite::coerce::FieldParseError;
use sqlite::load::{conclude, load_data_from_csv, load_records, plan_load, LoadError, LoadPlan, RecordFault};
use sqlite::records::{parse_records, Record};
use sqlite::row::BirthRow;
use sqlite::store::{create_table, query_exec, Refusal};

const THREE_ROWS: &str = "year,month,date_of_month,day_of_week,births\n2000,1,1,6,9083\n2000,1,2,7,8006\n2000,1,3,1,11363\n";

fn record(texts: &[&str]) -> Record {
    Some(texts.iter().map(|t| t.to_string()).collect())
}

fn store_with_table() -> Connection {
    let conn = Connection::open_in_memory().unwrap();
    create_table(&conn, "births").unwrap();
    conn
}

fn stored(conn: &Connection) -> Vec<BirthRow> {
    query_exec(conn, "SELECT * FROM births ORDER BY rowid").unwrap()
}

fn some_store_error() -> rusqlite::Error {
    let conn = Connection::open_in_memory().unwrap();
    conn.execute("not a statement", []).unwrap_err()
}

#[test]
fn records_are_the_lines_after_the_header() {
    let records = parse_records(THREE_ROWS.as_bytes());
    assert_eq!(
        records,
        vec![
            record(&["2000", "1", "1", "6", "9083"]),
            record(&["2000", "1", "2", "7", "8006"]),
            record(&["2000", "1", "3", "1", "11363"]),
        ]
    );
}

#[test]
fn source_without_records_gives_none() {
    assert_eq!(parse_records(b""), Vec::<Record>::new());
    assert_eq!(parse_records(b"year,month,date_of_month,day_of_week,births\n"), Vec::<Record>::new());
    assert_eq!(parse_records(b"only,a,header"), Vec::<Record>::new());
}

#[test]
fn quoted_fields_keep_their_delimiters_and_quotes() {
    let records = parse_records(b"a,b,c\n\"1,5\",\"say \"\"hi\"\"\",\" 3 \"\n\"line\nbreak\",,x\n");
    assert_eq!(
        records,
        vec![record(&["1,5", "say \"hi\"", " 3 "]), record(&["line\nbreak", "", "x"])]
    );
}

#[test]
fn last_record_needs_no_line_end_and_empty_lines_are_skipped() {
    let records = parse_records(b"a,b\r\n1,2\r\n\r\n3,4");
    assert_eq!(records, vec![record(&["1", "2"]), record(&["3", "4"])]);
}

#[test]
fn record_of_another_length_than_the_header_cannot_be_read() {
    let records = parse_records(b"a,b,c\n1,2,3\n4,5\n6,7,8\n9,10,11,12\n");
    assert_eq!(
        records,
        vec![record(&["1", "2", "3"]), None, record(&["6", "7", "8"]), None]
    );
}

#[test]
fn record_that_is_not_utf8_cannot_be_read() {
    let records = parse_records(b"a,b\n1,\xff\n3,4\n");
    assert_eq!(records, vec![None, record(&["3", "4"])]);
}

#[test]
fn well_formed_file_of_three_rows_is_loaded_whole() {
    let conn = store_with_table();
    let loaded = load_data_from_csv(&conn, "births", THREE_ROWS.as_bytes());
    assert!(matches!(loaded, Ok(3)), "{:?}", loaded);
    assert_eq!(
        stored(&conn),
        vec![
            BirthRow { year: 2000, month: 1, date_of_month: 1, day_of_week: 6, births: 9083 },
            BirthRow { year: 2000, month: 1, date_of_month: 2, day_of_week: 7, births: 8006 },
            BirthRow { year: 2000, month: 1, date_of_month: 3, day_of_week: 1, births: 11363 },
        ]
    );
}

#[test]
fn loading_twice_appends() {
    let conn = store_with_table();
    assert!(matches!(load_data_from_csv(&conn, "births", THREE_ROWS.as_bytes()), Ok(3)));
    assert!(matches!(load_data_from_csv(&conn, "births", THREE_ROWS.as_bytes()), Ok(3)));
    assert_eq!(stored(&conn).len(), 6);
}

#[test]
fn empty_source_loads_nothing() {
    let conn = store_with_table();
    assert!(matches!(load_data_from_csv(&conn, "births", b""), Ok(0)));
    assert!(matches!(load_data_from_csv(&conn, "births", b"year,month\n"), Ok(0)));
    assert!(matches!(load_data_from_csv(&conn, "no_such_table", b""), Ok(0)));
    assert_eq!(stored(&conn), Vec::new());
}

#[test]
fn unparsable_year_does_not_stop_the_load() {
    let conn = store_with_table();
    let data = "year,month,date_of_month,day_of_week,births\nabc,10,22,6,500\n2023,10,23,7,501\n";
    assert!(matches!(load_data_from_csv(&conn, "births", data.as_bytes()), Ok(2)));
    assert_eq!(
        stored(&conn),
        vec![BirthRow::new(0, 10, 22, 6, 500), BirthRow::new(2023, 10, 23, 7, 501)]
    );
}

#[test]
fn unparsable_month_fails_the_load_and_later_rows_are_not_loaded() {
    let conn = store_with_table();
    let data = "year,month,date_of_month,day_of_week,births\n2023,10,21,5,499\n2023,xx,22,6,500\n2023,10,23,7,501\n";
    let loaded = load_data_from_csv(&conn, "births", data.as_bytes());
    assert!(
        matches!(
            loaded,
            Err(LoadError::FieldParse { index: 1, fault: FieldParseError::Unparsable { column: 1 } })
        ),
        "{:?}",
        loaded
    );
    assert_eq!(stored(&conn), vec![BirthRow::new(2023, 10, 21, 5, 499)]);
}

#[test]
fn unparsable_month_in_the_first_record_loads_nothing() {
    let conn = store_with_table();
    let data = "year,month,date_of_month,day_of_week,births\n2023,xx,22,6,500\n2023,10,23,7,501\n";
    let loaded = load_data_from_csv(&conn, "births", data.as_bytes());
    assert!(matches!(
        loaded,
        Err(LoadError::FieldParse { index: 0, fault: FieldParseError::Unparsable { column: 1 } })
    ));
    assert_eq!(stored(&conn), Vec::new());
}

#[test]
fn unparsable_births_fail_the_load() {
    let conn = store_with_table();
    let data = "year,month,date_of_month,day_of_week,births\n2023,10,22,6,many\n";
    let loaded = load_data_from_csv(&conn, "births", data.as_bytes());
    assert!(matches!(
        loaded,
        Err(LoadError::FieldParse { index: 0, fault: FieldParseError::Unparsable { column: 4 } })
    ));
}

#[test]
fn record_that_cannot_be_read_fails_the_load() {
    let conn = store_with_table();
    let data = "year,month,date_of_month,day_of_week,births\n2023,10,21,5,499\n2023,10,22\n2023,10,23,7,501\n";
    let loaded = load_data_from_csv(&conn, "births", data.as_bytes());
    assert!(matches!(loaded, Err(LoadError::MalformedRecord { index: 1 })), "{:?}", loaded);
    assert_eq!(stored(&conn), vec![BirthRow::new(2023, 10, 21, 5, 499)]);
}

#[test]
fn source_of_fewer_than_five_columns_misses_a_field() {
    let conn = store_with_table();
    let data = "year,month,date_of_month\n2023,10,21\n";
    let loaded = load_data_from_csv(&conn, "births", data.as_bytes());
    assert!(matches!(
        loaded,
        Err(LoadError::FieldParse { index: 0, fault: FieldParseError::Missing { column: 3 } })
    ));
}

#[test]
fn source_of_more_than_five_columns_is_loaded_by_its_first_five() {
    let conn = store_with_table();
    let data = "year,month,date_of_month,day_of_week,births,note\n2023,10,21,5,499,fine\n";
    assert!(matches!(load_data_from_csv(&conn, "births", data.as_bytes()), Ok(1)));
    assert_eq!(stored(&conn), vec![BirthRow::new(2023, 10, 21, 5, 499)]);
}

#[test]
fn refusal_by_the_store_fails_the_load_at_that_row() {
    let conn = Connection::open_in_memory().unwrap();
    let loaded = load_data_from_csv(&conn, "births", THREE_ROWS.as_bytes());
    assert!(matches!(loaded, Err(LoadError::Store { index: 0, .. })), "{:?}", loaded);

    conn.execute(
        "CREATE TABLE births (year INTEGER NOT NULL, month INTEGER NOT NULL, date_of_month INTEGER NOT NULL CHECK (date_of_month < 3), day_of_week INTEGER NOT NULL, births INTEGER NOT NULL)",
        [],
    )
    .unwrap();
    let loaded = load_data_from_csv(&conn, "births", THREE_ROWS.as_bytes());
    assert!(matches!(loaded, Err(LoadError::Store { index: 2, .. })), "{:?}", loaded);
    assert_eq!(stored(&conn).len(), 2);
}

#[test]
fn refusal_by_the_store_comes_before_a_later_fault() {
    let conn = Connection::open_in_memory().unwrap();
    let data = "year,month,date_of_month,day_of_week,births\n2023,10,21,5,499\n2023,xx,22,6,500\n";
    let loaded = load_data_from_csv(&conn, "births", data.as_bytes());
    assert!(matches!(loaded, Err(LoadError::Store { index: 0, .. })), "{:?}", loaded);
}

#[test]
fn values_are_bound_and_never_put_into_the_statement() {
    let conn = store_with_table();
    let data = "year,month,date_of_month,day_of_week,births\n\"1); DROP TABLE births; --\",1,2,3,4\n";
    assert!(matches!(load_data_from_csv(&conn, "births", data.as_bytes()), Ok(1)));
    assert_eq!(stored(&conn), vec![BirthRow::new(0, 1, 2, 3, 4)]);
}

#[test]
fn plan_holds_the_rows_before_the_first_fault() {
    let records = vec![
        record(&["2000", "1", "1", "6", "9083"]),
        record(&["x", "1", "2", "7", "8006"]),
        record(&["2000", "1", "3", "1", "oops"]),
        record(&["2000", "1", "4", "2", "1"]),
    ];
    let plan = plan_load(&records);
    assert_eq!(plan.rows, vec![BirthRow::new(2000, 1, 1, 6, 9083), BirthRow::new(0, 1, 2, 7, 8006)]);
    assert_eq!(
        plan.fault,
        Some(RecordFault::Field(FieldParseError::Unparsable { column: 4 }))
    );

    let plan = plan_load(&vec![None, record(&["2000", "1", "1", "6", "9083"])]);
    assert_eq!(plan.rows, Vec::new());
    assert_eq!(plan.fault, Some(RecordFault::Malformed));

    let plan = plan_load(&records[..2].to_vec());
    assert_eq!(plan.rows.len(), 2);
    assert_eq!(plan.fault, None);

    let plan = plan_load(&Vec::new());
    assert_eq!(plan.rows, Vec::new());
    assert_eq!(plan.fault, None);
}

#[test]
fn load_ends_as_the_plan_and_the_store_decide() {
    let sound = LoadPlan { rows: vec![BirthRow::new(1, 2, 3, 4, 5); 3], fault: None };
    assert!(matches!(conclude(&sound, Ok(3)), Ok(3)));
    assert!(matches!(
        conclude(&sound, Err(Refusal { index: 1, error: some_store_error() })),
        Err(LoadError::Store { index: 1, .. })
    ));

    let malformed = LoadPlan { rows: vec![BirthRow::new(1, 2, 3, 4, 5); 2], fault: Some(RecordFault::Malformed) };
    assert!(matches!(conclude(&malformed, Ok(2)), Err(LoadError::MalformedRecord { index: 2 })));
    assert!(matches!(
        conclude(&malformed, Err(Refusal { index: 0, error: some_store_error() })),
        Err(LoadError::Store { index: 0, .. })
    ));

    let fault = FieldParseError::Missing { column: 4 };
    let faulty = LoadPlan { rows: Vec::new(), fault: Some(RecordFault::Field(fault)) };
    assert!(matches!(
        conclude(&faulty, Ok(0)),
        Err(LoadError::FieldParse { index: 0, fault: FieldParseError::Missing { column: 4 } })
    ));
}

#[test]
fn records_are_loaded_like_the_text_they_were_read_from() {
    let conn = store_with_table();
    let records = vec![record(&["2000", " 1 ", "1.0", "6e0", "9083"]), record(&["2001", "2", "3", "4", "5"])];
    assert!(matches!(load_records(&conn, "births", &records), Ok(2)));
    assert_eq!(stored(&conn), vec![BirthRow::new(2000, 1, 1, 6, 9083), BirthRow::new(2001, 2, 3, 4, 5)]);
}

#[test]
fn source_of_whole_valued_numerals_is_loaded_by_value() {
    let conn = store_with_table();
    conn.execute("INSERT INTO births VALUES (1, 2, 3, 4, 5)", []).unwrap();
    let data = "year,month,date_of_month,day_of_week,births\n2000,1.0,1e0,6,9083\nbad, 2 ,20e-1,7.00,16777216\n-3,-1,-2.0,-3e0,-16777216\n";
    assert!(matches!(load_data_from_csv(&conn, "births", data.as_bytes()), Ok(3)));
    assert_eq!(
        stored(&conn),
        vec![
            BirthRow::new(1, 2, 3, 4, 5),
            BirthRow::new(2000, 1, 1, 6, 9083),
            BirthRow::new(0, 2, 2, 7, 16777216),
            BirthRow::new(-3, -1, -2, -3, -16777216),
        ]
    );
}

#[test]
fn load_leaves_other_tables_as_they_were() {
    let conn = store_with_table();
    create_table(&conn, "other").unwrap();
    conn.execute("INSERT INTO other VALUES (1, 2, 3, 4, 5)", []).unwrap();
    assert!(matches!(load_data_from_csv(&conn, "births", THREE_ROWS.as_bytes()), Ok(3)));
    assert_eq!(
        query_exec(&conn, "SELECT * FROM other").unwrap(),
        vec![BirthRow::new(1, 2, 3, 4, 5)]
    );
}
