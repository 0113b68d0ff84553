use spice_core::columnar::{Column, DataType, Field, RecordBatch, Scalar, TimeUnit};
use spice_core::snowflake::{
    cast_sf_timestamp_ntz_to_arrow_timestamp, is_timestamp_ntz_name, schema_from_response,
    schema_probe_sql, snowflake_schema_cast, Error, QueryResult,
};

fn ntz_type() -> DataType {
    DataType::Struct(vec![
        Field::new("epoch".to_string(), DataType::Int64, true),
        Field::new("fraction".to_string(), DataType::Int32, true),
    ])
}

fn create_timestamp_ntz_array(epochs: Vec<Option<i64>>, fractions: Vec<Option<i32>>) -> Column {
    epochs
        .into_iter()
        .zip(fractions)
        .map(|(e, f)| match (e, f) {
            (Some(e), Some(f)) => Some(Scalar::Struct(vec![Some(Scalar::Int64(e)), Some(Scalar::Int32(f))])),
            _ => None,
        })
        .collect()
}

#[test]
fn test_cast_sf_timestamp_ntz_to_arrow_timestamp() {
    let column = create_timestamp_ntz_array(
        vec![Some(1_696_164_330), None, Some(1_714_647_301)],
        vec![Some(0), None, Some(739_000_000)],
    );
    let result = cast_sf_timestamp_ntz_to_arrow_timestamp(&column, &ntz_type())
        .expect("Should cast Snowflake timestamp to Arrow timestamp");
    assert!(matches!(result[0], Some(Scalar::Timestamp(1_696_164_330_000))));
    assert!(result[1].is_none());
    assert!(matches!(result[2], Some(Scalar::Timestamp(1_714_647_301_739))));
}

#[test]
fn test_cast_sf_timestamp_ntz_to_arrow_timestamp_invalid_input() {
    let only_epoch = DataType::Struct(vec![Field::new("epoch".to_string(), DataType::Int64, true)]);
    let column: Column = vec![
        Some(Scalar::Struct(vec![Some(Scalar::Int64(1_696_164_330))])),
        None,
        Some(Scalar::Struct(vec![Some(Scalar::Int64(1_714_647_301))])),
    ];
    let result = cast_sf_timestamp_ntz_to_arrow_timestamp(&column, &only_epoch);
    assert!(result.is_err());
}

#[test]
fn cast_rejects_non_struct_and_overflow() {
    let column: Column = vec![Some(Scalar::Int64(1))];
    assert!(matches!(
        cast_sf_timestamp_ntz_to_arrow_timestamp(&column, &DataType::Int64),
        Err(Error::UnableToCastSnowflakeTimestamp { .. })
    ));
    let column = create_timestamp_ntz_array(vec![Some(i64::MAX / 10)], vec![Some(0)]);
    assert!(matches!(
        cast_sf_timestamp_ntz_to_arrow_timestamp(&column, &ntz_type()),
        Err(Error::TimestampOutOfRange { index: 0 })
    ));
}

#[test]
fn cast_negative_fraction_truncates_toward_zero() {
    let column = create_timestamp_ntz_array(vec![Some(10)], vec![Some(-1_500_000)]);
    let result = cast_sf_timestamp_ntz_to_arrow_timestamp(&column, &ntz_type()).unwrap();
    assert!(matches!(result[0], Some(Scalar::Timestamp(9_999))));
}

#[test]
fn schema_cast_retypes_tagged_columns_only() {
    let mut tagged = Field::new("ts".to_string(), ntz_type(), true);
    tagged.metadata.push(("logicalType".to_string(), "TIMESTAMP_NTZ".to_string()));
    let mut other = Field::new("id".to_string(), DataType::Int64, false);
    other.metadata.push(("logicalType".to_string(), "FIXED".to_string()));
    let batch = RecordBatch {
        schema: vec![tagged, other],
        columns: vec![
            create_timestamp_ntz_array(vec![Some(1), None], vec![Some(2_000_000), None]),
            vec![Some(Scalar::Int64(5)), Some(Scalar::Int64(6))],
        ],
        row_count: 2,
    };
    let out = snowflake_schema_cast(batch).unwrap();
    assert_eq!(out.num_rows(), 2);
    assert_eq!(out.schema[0].name, "ts");
    assert!(matches!(out.schema[0].data_type, DataType::Timestamp(TimeUnit::Millisecond, None)));
    assert!(matches!(out.columns[0][0], Some(Scalar::Timestamp(1_002))));
    assert!(out.columns[0][1].is_none());
    assert_eq!(out.schema[1].name, "id");
    assert!(matches!(out.schema[1].data_type, DataType::Int64));
    assert!(matches!(out.columns[1][1], Some(Scalar::Int64(6))));
}

#[test]
fn schema_cast_mismatched_columns_fail() {
    let batch = RecordBatch {
        schema: vec![Field::new("id".to_string(), DataType::Int64, false)],
        columns: vec![],
        row_count: 0,
    };
    assert!(matches!(snowflake_schema_cast(batch), Err(Error::FailedToCreateRecordBatch)));
}

#[test]
fn timestamp_ntz_name_is_exact_after_lowering() {
    assert!(is_timestamp_ntz_name(&"timestamp_ntz".to_string()));
    assert!(!is_timestamp_ntz_name(&"TIMESTAMP_NTZ".to_string()));
    assert!(!is_timestamp_ntz_name(&"timestamp_ltz".to_string()));
}

#[test]
fn malformed_entry_is_unable_to_cast() {
    let column: Column = vec![Some(Scalar::Struct(vec![Some(Scalar::Int64(1)), Some(Scalar::Int64(2))]))];
    assert!(matches!(
        cast_sf_timestamp_ntz_to_arrow_timestamp(&column, &ntz_type()),
        Err(Error::UnableToCastSnowflakeTimestamp { .. })
    ));
}

#[test]
fn schema_probe_and_answers() {
    assert_eq!(schema_probe_sql("\"db\".\"t\""), "SELECT * FROM \"db\".\"t\" limit 1");
    assert!(matches!(schema_from_response(QueryResult::Empty), Err(Error::UnableToGetSchema { .. })));
    assert!(matches!(
        schema_from_response(QueryResult::Json("{}".to_string())),
        Err(Error::UnableToGetSchema { .. })
    ));
    assert!(matches!(schema_from_response(QueryResult::Arrow(vec![])), Err(Error::UnableToGetSchema { .. })));
    let mut tagged = Field::new("ts".to_string(), ntz_type(), true);
    tagged.metadata.push(("logicalType".to_string(), "timestamp_ntz".to_string()));
    let batch = RecordBatch {
        schema: vec![tagged, Field::new("id".to_string(), DataType::Int64, false)],
        columns: vec![
            create_timestamp_ntz_array(vec![Some(1)], vec![Some(0)]),
            vec![Some(Scalar::Int64(5))],
        ],
        row_count: 1,
    };
    let fields = schema_from_response(QueryResult::Arrow(vec![batch])).unwrap();
    assert_eq!(fields.len(), 2);
    assert!(matches!(fields[0].data_type, DataType::Timestamp(TimeUnit::Millisecond, None)));
    assert!(matches!(fields[1].data_type, DataType::Int64));
}
