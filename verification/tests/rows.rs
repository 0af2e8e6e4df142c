use pg_relay::error::Error;
use pg_relay::row::{Column, Float64, Inputs, Row};
use pg_relay::schema::{default_rows, Type};

fn date() -> chrono::NaiveDate {
    chrono::NaiveDate::from_ymd_opt(2026, 1, 31).unwrap()
}

fn inputs() -> Inputs {
    Inputs::from_pairs(vec![
        ("n", Column::Int64(-5)),
        ("t", Column::Text("text".to_string())),
        ("d", Column::Date(date())),
        ("null", Column::Null),
        ("t", Column::Text("later".to_string())),
        ("b", Column::Bool(true)),
    ])
}

#[test]
fn rows_are_built_column_by_column() {
    let at = date().and_hms_opt(1, 2, 3).unwrap();
    let json = serde_json::Value::Bool(false);
    let row = Row::with_capacity(3)
        .push(true)
        .push(7i64)
        .push(Float64 { bits: 1.5f64.to_bits() })
        .push("text")
        .push("owned".to_string())
        .push(vec![1u8, 2])
        .push(date())
        .push(at)
        .push(json.clone())
        .push(None::<i64>)
        .push(Some("some"))
        .push(Some(3i64));
    assert_eq!(
        row.columns,
        vec![
            Column::Bool(true),
            Column::Int64(7),
            Column::Float64(Float64 { bits: 0x3ff8_0000_0000_0000 }),
            Column::Text("text".to_string()),
            Column::Text("owned".to_string()),
            Column::Bytes(vec![1, 2]),
            Column::Date(date()),
            Column::Timestamp(at),
            Column::Json(json),
            Column::Null,
            Column::Text("some".to_string()),
            Column::Int64(3),
        ]
    );
    assert_eq!(row.clone().columns, row.columns);
    assert!(Row::default().columns.is_empty());
}

#[test]
fn floats_compare_as_numbers() {
    let f = |x: f64| Float64 { bits: x.to_bits() };
    assert!(f(1.0) == f(1.0));
    assert!(f(0.0) == f(-0.0));
    assert!(f(f64::NAN) != f(f64::NAN));
    assert!(f(f64::INFINITY) == f(f64::INFINITY));
    assert!(f(f64::INFINITY) != f(f64::NEG_INFINITY));
    assert!(f(1.0) != f(-1.0));
    for a in [0.0, -0.0, 1.0, -1.0, f64::NAN, -f64::NAN, f64::INFINITY, f64::MIN_POSITIVE] {
        for b in [0.0, -0.0, 1.0, -1.0, f64::NAN, f64::INFINITY, f64::NEG_INFINITY] {
            assert_eq!(f(a) == f(b), a == b);
        }
    }
}

#[test]
fn inputs_are_found_by_name() {
    let inputs = inputs();
    assert_eq!(inputs.get("n").unwrap(), &Column::Int64(-5));
    assert_eq!(inputs.get_i64("n").unwrap(), -5);
    assert_eq!(inputs.get_text("t").unwrap(), "text");
    assert_eq!(inputs.get_date("d").unwrap(), date());
    assert_eq!(inputs.get_opt_text("t").unwrap(), Some("text"));
    assert_eq!(inputs.get_opt_text("null").unwrap(), None);
    assert_eq!(inputs.clone().values.len(), 6);
    assert!(Inputs::default().values.is_empty());
}

#[test]
fn missing_inputs_are_reported() {
    let inputs = inputs();
    assert!(matches!(inputs.get("x"), Err(Error::MissingInput(n)) if n == "x"));
    assert!(matches!(inputs.get_i64("x"), Err(Error::MissingInput(_))));
    assert!(matches!(inputs.get_text("x"), Err(Error::MissingInput(_))));
    assert!(matches!(inputs.get_date("x"), Err(Error::MissingInput(_))));
    assert!(matches!(inputs.get_opt_text("x"), Err(Error::MissingInput(_))));
}

#[test]
fn inputs_of_the_wrong_type_are_reported() {
    let inputs = inputs();
    let e = inputs.get_i64("t").err().unwrap();
    assert_eq!(e.message(), "type mismatch for input 't': expected int64, got text");
    let e = inputs.get_text("n").err().unwrap();
    assert_eq!(e.message(), "type mismatch for input 'n': expected text, got int64");
    let e = inputs.get_date("null").err().unwrap();
    assert_eq!(e.message(), "type mismatch for input 'null': expected date, got null");
    let e = inputs.get_opt_text("b").err().unwrap();
    assert_eq!(e.message(), "type mismatch for input 'b': expected text or null, got bool");
    assert_eq!(e.code(), "input_type_mismatch");
}

#[test]
fn columns_name_their_types() {
    let at = date().and_hms_opt(0, 0, 0).unwrap();
    for (column, name) in [
        (Column::Null, "null"),
        (Column::Bool(true), "bool"),
        (Column::Int64(0), "int64"),
        (Column::Float64(Float64 { bits: 0 }), "float64"),
        (Column::Text(String::new()), "text"),
        (Column::Bytes(vec![]), "bytes"),
        (Column::Date(date()), "date"),
        (Column::Timestamp(at), "timestamp"),
        (Column::Json(serde_json::Value::Null), "json"),
    ] {
        assert_eq!(column.kind_name(), name);
        if name != "float64" {
            assert_eq!(column.clone(), column);
        }
    }
}

#[test]
fn types_have_postgres_names() {
    for (ty, name) in [
        (Type::Bool, "boolean"),
        (Type::Int64, "bigint"),
        (Type::Float64, "double precision"),
        (Type::Text, "text"),
        (Type::Bytes, "bytea"),
        (Type::Date, "date"),
        (Type::Timestamp, "timestamp with time zone"),
        (Type::Json, "jsonb"),
    ] {
        assert_eq!(ty.pg_type(), name);
    }
    assert_eq!(default_rows(), 100);
}
