use spice_core::columnar::{DataType, Scalar, TimeUnit};
use spice_core::pg_types::{
    columns_to_schema, map_column_type_to_data_type, PgCell, PgColumn, PgField, PgRow, PgType,
};
use spice_core::postgres::{rows_to_arrow, Error};

fn column(name: &str, type_: PgType) -> PgColumn {
    PgColumn { name: name.to_string(), type_ }
}

fn rows_of(columns: impl Fn() -> Vec<PgColumn>, cells: Vec<Vec<PgCell>>) -> Vec<PgRow> {
    cells.into_iter().map(|cells| PgRow { columns: columns(), cells }).collect()
}

fn utf8(v: &Option<Scalar>) -> &str {
    match v {
        Some(Scalar::Utf8(s)) => s.as_str(),
        other => panic!("expected a string, got {other:?}"),
    }
}

const UUID_BYTES: [u8; 16] = [
    0x5e, 0xa5, 0xa3, 0xac, 0x07, 0xa0, 0x4d, 0x4d, 0xb2, 0x01, 0xfa, 0xff, 0x68, 0xd8, 0x35, 0x6c,
];

#[test]
fn test_postgres_types() {
    // 2023-05-02 10:30:00-04:00 is 1683037800 seconds after the epoch.
    let ns: i128 = 1_683_037_800 * 1_000_000_000;
    let rows = rows_of(
        || vec![column("id", PgType::Uuid), column("created_at", PgType::Timestamptz)],
        vec![vec![PgCell::Uuid(UUID_BYTES), PgCell::Timestamp(ns)]],
    );
    let batch = rows_to_arrow(&rows).expect("RecordBatch can be built");
    assert_eq!(batch.num_rows(), 1);
    assert!(matches!(batch.schema[0].data_type, DataType::Utf8));
    assert!(matches!(
        batch.schema[1].data_type,
        DataType::Timestamp(TimeUnit::Millisecond, None)
    ));
    assert_eq!(utf8(&batch.columns[0][0]), "5ea5a3ac-07a0-4d4d-b201-faff68d8356c");
    assert!(matches!(batch.columns[1][0], Some(Scalar::Timestamp(1_683_037_800_000))));
}

#[test]
fn bpchar_trailing_spaces_trimmed() {
    let rows = rows_of(
        || vec![column("c", PgType::Bpchar), column("t", PgType::Text)],
        vec![
            vec![PgCell::Text("abc   ".to_string()), PgCell::Text("abc   ".to_string())],
            vec![PgCell::Text("  a b  ".to_string()), PgCell::Null],
            vec![PgCell::Text("   ".to_string()), PgCell::Text("x".to_string())],
        ],
    );
    let batch = rows_to_arrow(&rows).unwrap();
    assert_eq!(utf8(&batch.columns[0][0]), "abc");
    assert_eq!(utf8(&batch.columns[0][1]), "  a b");
    assert_eq!(utf8(&batch.columns[0][2]), "");
    // TEXT keeps its spaces.
    assert_eq!(utf8(&batch.columns[1][0]), "abc   ");
    assert!(batch.columns[1][1].is_none());
}

#[test]
fn composite_fields_round_trip() {
    let composite = || {
        PgType::Composite(vec![
            PgField { name: "a".to_string(), type_: PgType::Int4 },
            PgField { name: "b".to_string(), type_: PgType::Text },
        ])
    };
    let rows = rows_of(
        move || vec![column("rec", composite())],
        vec![
            vec![PgCell::Composite(vec![PgCell::Int4(7), PgCell::Text("seven".to_string())])],
            vec![PgCell::Null],
            vec![PgCell::Composite(vec![PgCell::Null, PgCell::Text("none".to_string())])],
        ],
    );
    let batch = rows_to_arrow(&rows).unwrap();
    match &batch.schema[0].data_type {
        DataType::Struct(fields) => {
            assert_eq!(fields.len(), 2);
            assert_eq!(fields[0].name, "a");
            assert!(matches!(fields[0].data_type, DataType::Int32));
            assert_eq!(fields[1].name, "b");
            assert!(matches!(fields[1].data_type, DataType::Utf8));
        }
        other => panic!("expected a struct, got {other:?}"),
    }
    match &batch.columns[0][0] {
        Some(Scalar::Struct(vs)) => {
            assert!(matches!(vs[0], Some(Scalar::Int32(7))));
            assert_eq!(utf8(&vs[1]), "seven");
        }
        other => panic!("expected a struct value, got {other:?}"),
    }
    assert!(batch.columns[0][1].is_none());
    match &batch.columns[0][2] {
        Some(Scalar::Struct(vs)) => assert!(vs[0].is_none()),
        other => panic!("expected a struct value, got {other:?}"),
    }
}

#[test]
fn composite_field_of_wrong_kind_fails() {
    let rows = rows_of(
        || {
            vec![column(
                "rec",
                PgType::Composite(vec![PgField { name: "a".to_string(), type_: PgType::Int4 }]),
            )]
        },
        vec![vec![PgCell::Composite(vec![PgCell::Text("x".to_string())])]],
    );
    assert!(matches!(
        rows_to_arrow(&rows),
        Err(Error::FailedToGetCompositeRowValue { row: 0, column: 0 })
    ));
}

#[test]
fn unsupported_type_dropped_row_count_kept() {
    let rows = rows_of(
        || vec![column("g", PgType::Other("geometry".to_string()))],
        vec![vec![PgCell::Null], vec![PgCell::Text("POINT(0 0)".to_string())]],
    );
    let batch = rows_to_arrow(&rows).unwrap();
    assert_eq!(batch.num_columns(), 0);
    assert!(batch.schema.is_empty());
    assert_eq!(batch.num_rows(), 2);
}

#[test]
fn every_column_has_one_entry_per_row() {
    let rows = rows_of(
        || {
            vec![
                column("i", PgType::Int8),
                column("n", PgType::Numeric),
                column("d", PgType::Date),
                column("a", PgType::Int4Array),
                column("b", PgType::Bool),
            ]
        },
        vec![
            vec![PgCell::Int8(1), PgCell::Null, PgCell::Date(19000), PgCell::Array(vec![PgCell::Int4(1), PgCell::Int4(2)]), PgCell::Bool(true)],
            vec![PgCell::Null, PgCell::Numeric(vec![0, 1, 0, 0, 0, 0, 0, 2, 0, 12]), PgCell::Null, PgCell::Null, PgCell::Null],
            vec![PgCell::Int8(3), PgCell::Null, PgCell::Date(-1), PgCell::Array(vec![]), PgCell::Bool(false)],
        ],
    );
    let batch = rows_to_arrow(&rows).unwrap();
    assert_eq!(batch.num_columns(), 5);
    for col in &batch.columns {
        assert_eq!(col.len(), 3);
    }
    assert!(matches!(batch.columns[3][0], Some(Scalar::List(ref vs)) if vs.len() == 2));
    assert!(matches!(batch.columns[2][2], Some(Scalar::Date32(-1))));
}

#[test]
fn numeric_column_takes_scale_from_first_value() {
    // 12 with scale 2, then 1.5 with scale 1: stored at scale 2 as 1200 and 150.
    let twelve = vec![0, 1, 0, 0, 0, 0, 0, 2, 0, 12];
    let one_and_half = vec![0, 2, 0, 0, 0, 0, 0, 1, 0, 1, 0x13, 0x88];
    let rows = rows_of(
        || vec![column("n", PgType::Numeric)],
        vec![vec![PgCell::Null], vec![PgCell::Numeric(twelve)], vec![PgCell::Numeric(one_and_half)]],
    );
    let batch = rows_to_arrow(&rows).unwrap();
    assert!(matches!(batch.schema[0].data_type, DataType::Decimal128(38, 2)));
    assert!(batch.columns[0][0].is_none());
    assert!(matches!(batch.columns[0][1], Some(Scalar::Decimal128(1200))));
    assert!(matches!(batch.columns[0][2], Some(Scalar::Decimal128(150))));
}

#[test]
fn numeric_column_all_null_is_kept_at_scale_zero() {
    let rows = rows_of(|| vec![column("n", PgType::Numeric)], vec![vec![PgCell::Null], vec![PgCell::Null]]);
    let batch = rows_to_arrow(&rows).unwrap();
    assert_eq!(batch.num_columns(), 1);
    assert_eq!(batch.num_rows(), 2);
    assert_eq!(batch.schema[0].name, "n");
    assert!(batch.schema[0].nullable);
    assert!(matches!(batch.schema[0].data_type, DataType::Decimal128(38, 0)));
    assert!(batch.columns[0].iter().all(|v| v.is_none()));
}

#[test]
fn numeric_bad_sign_fails_decode() {
    let rows = rows_of(
        || vec![column("n", PgType::Numeric)],
        vec![vec![PgCell::Numeric(vec![0, 1, 0, 0, 0x20, 0, 0, 0, 0, 1])]],
    );
    assert!(matches!(
        rows_to_arrow(&rows),
        Err(Error::FailedToParseBigDecimalFromPostgres { .. })
    ));
}

#[test]
fn timestamp_before_epoch_fails_batch() {
    let rows = rows_of(|| vec![column("t", PgType::Timestamp)], vec![vec![PgCell::Timestamp(-1)]]);
    assert!(matches!(rows_to_arrow(&rows), Err(Error::FailedToBuildRecordBatch { column: 0 })));
}

#[test]
fn wrong_cell_kind_and_missing_cell_fail() {
    let rows = rows_of(|| vec![column("i", PgType::Int4)], vec![vec![PgCell::Int8(1)]]);
    assert!(matches!(rows_to_arrow(&rows), Err(Error::FailedToGetRowValue { row: 0, column: 0 })));
    let rows = rows_of(|| vec![column("i", PgType::Int4)], vec![vec![PgCell::Int4(1)], vec![]]);
    assert!(matches!(rows_to_arrow(&rows), Err(Error::FailedToGetRowValue { row: 1, column: 0 })));
}

#[test]
fn no_rows_give_an_empty_batch() {
    let batch = rows_to_arrow(&vec![]).unwrap();
    assert_eq!(batch.num_rows(), 0);
    assert_eq!(batch.num_columns(), 0);
}

#[test]
fn schema_leaves_out_numeric_and_unknown_types() {
    let cols = vec![
        column("a", PgType::Int2),
        column("n", PgType::Numeric),
        column("l", PgType::TextArray),
        column("x", PgType::Other("xml".to_string())),
    ];
    let fields = columns_to_schema(&cols).unwrap();
    assert_eq!(fields.len(), 2);
    assert_eq!(fields[0].name, "a");
    assert!(matches!(fields[0].data_type, DataType::Int16));
    match &fields[1].data_type {
        DataType::List(item) => {
            assert_eq!(item.name, "item");
            assert!(matches!(item.data_type, DataType::Utf8));
        }
        other => panic!("expected a list, got {other:?}"),
    }
    assert!(map_column_type_to_data_type(&PgType::Numeric).is_none());
}

#[test]
fn numeric_value_finer_than_column_scale_fails() {
    // 12 at scale 2 sets the column scale; 0.001 has scale 3.
    let twelve = vec![0, 1, 0, 0, 0, 0, 0, 2, 0, 12];
    let thousandth = vec![0, 1, 0xFF, 0xFF, 0, 0, 0, 3, 0, 10];
    let rows = rows_of(
        || vec![column("n", PgType::Numeric)],
        vec![vec![PgCell::Numeric(twelve)], vec![PgCell::Numeric(thousandth)]],
    );
    assert!(matches!(
        rows_to_arrow(&rows),
        Err(Error::FailedToConvertBigDecimalToI128 { row: 1, column: 0 })
    ));
}

#[test]
fn numeric_scale_above_decimal_limit_fails() {
    // Zero with scale 39.
    let rows = rows_of(
        || vec![column("n", PgType::Numeric)],
        vec![vec![PgCell::Numeric(vec![0, 0, 0, 0, 0, 0, 0, 39])]],
    );
    assert!(matches!(
        rows_to_arrow(&rows),
        Err(Error::FailedToConvertBigDecimalToI128 { row: 0, column: 0 })
    ));
}

#[test]
fn timestamp_beyond_i64_millis_fails() {
    let ns: i128 = (i64::MAX as i128 + 1) * 1_000_000;
    let rows = rows_of(|| vec![column("t", PgType::Timestamptz)], vec![vec![PgCell::Timestamp(ns)]]);
    assert!(matches!(rows_to_arrow(&rows), Err(Error::FailedToConvertU128toI64 { row: 0, column: 0 })));
}

#[test]
fn composite_with_date_and_timestamp_fields() {
    let composite = || {
        PgType::Composite(vec![
            PgField { name: "d".to_string(), type_: PgType::Date },
            PgField { name: "t".to_string(), type_: PgType::Timestamp },
            PgField { name: "c".to_string(), type_: PgType::Bpchar },
        ])
    };
    let rows = rows_of(
        move || vec![column("rec", composite())],
        vec![vec![PgCell::Composite(vec![
            PgCell::Date(19_000),
            PgCell::Timestamp(1_500_000_000),
            PgCell::Text("x  ".to_string()),
        ])]],
    );
    let batch = rows_to_arrow(&rows).unwrap();
    match &batch.schema[0].data_type {
        DataType::Struct(fields) => {
            assert!(matches!(fields[0].data_type, DataType::Date32));
            assert!(matches!(fields[1].data_type, DataType::Timestamp(TimeUnit::Millisecond, None)));
            assert!(matches!(fields[2].data_type, DataType::Utf8));
        }
        other => panic!("expected a struct, got {other:?}"),
    }
    match &batch.columns[0][0] {
        Some(Scalar::Struct(vs)) => {
            assert!(matches!(vs[0], Some(Scalar::Date32(19_000))));
            assert!(matches!(vs[1], Some(Scalar::Timestamp(1_500))));
            assert_eq!(utf8(&vs[2]), "x");
        }
        other => panic!("expected a struct value, got {other:?}"),
    }
    let fields = columns_to_schema(&vec![column("rec", composite())]).unwrap();
    assert_eq!(fields.len(), 1);
    assert!(fields[0].metadata.is_empty());
}

#[test]
fn composite_with_numeric_field_has_no_mapping() {
    let t = PgType::Composite(vec![PgField { name: "n".to_string(), type_: PgType::Numeric }]);
    assert!(map_column_type_to_data_type(&t).is_none());
}
