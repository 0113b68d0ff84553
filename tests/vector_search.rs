use spice_core::columnar::{Constraint, DataType, Field, RecordBatch, Scalar};
use spice_core::pools::{flightsql_credentials, flightsql_endpoint, JoinPushDown, ODBCPool};
use spice_core::vector_search::{
    compute_primary_keys, models_to_embed, primary_keys_from_constraints,
    primary_keys_with_overrides, retrieval_count, retrieved_entries, search_sql,
    select_embedding_column, DatasetEmbeddings, Error, RetrievalLimit, VectorSearch,
};

fn strings(v: &[&str]) -> Vec<String> {
    v.iter().map(|s| s.to_string()).collect()
}

#[test]
fn search_query_text() {
    assert_eq!(
        search_sql("docs", &strings(&["id", "part"]), "body", "[0.5, 1.0]", 3),
        "SELECT id, part, body FROM docs ORDER BY array_distance(body_embedding, [0.5, 1.0]) LIMIT 3"
    );
    assert_eq!(
        search_sql("docs", &vec![], "body", "[1.0]", 10),
        "SELECT body FROM docs ORDER BY array_distance(body_embedding, [1.0]) LIMIT 10"
    );
}

#[test]
fn limits() {
    assert_eq!(retrieval_count(&RetrievalLimit::TopN(4)).unwrap(), 4);
    assert!(matches!(
        retrieval_count(&RetrievalLimit::Threshold(0.5f64.to_bits())),
        Err(Error::ThresholdNotSupported)
    ));
}

#[test]
fn embedding_column_rules() {
    let t = "docs".to_string();
    assert_eq!(select_embedding_column(&t, &strings(&["body", "title"]), 1).unwrap(), "body");
    assert!(matches!(select_embedding_column(&t, &vec![], 1), Err(Error::NoEmbeddingColumns { .. })));
    assert!(matches!(
        select_embedding_column(&t, &strings(&["body"]), 2),
        Err(Error::IncorrectNumberOfEmbeddingColumns { num_embeddings: 2, .. })
    ));
}

#[test]
fn primary_keys_from_schema_and_overrides() {
    let fields = strings(&["id", "name", "ts"]);
    let cs = vec![Constraint::Unique(vec![1]), Constraint::PrimaryKey(vec![2, 0])];
    assert_eq!(primary_keys_from_constraints(&cs, &fields).unwrap(), strings(&["ts", "id"]));
    assert!(primary_keys_from_constraints(&vec![], &fields).unwrap().is_empty());
    assert!(primary_keys_from_constraints(&vec![Constraint::PrimaryKey(vec![7])], &fields).is_err());

    let tables = strings(&["a", "b", "c"]);
    let own = vec![strings(&["id"]), vec![], vec![]];
    let explicit = vec![("b".to_string(), strings(&["key"]))];
    let keys = primary_keys_with_overrides(&tables, &own, &explicit);
    assert_eq!(keys.len(), 2);
    assert_eq!(keys[0], ("a".to_string(), strings(&["id"])));
    assert_eq!(keys[1], ("b".to_string(), strings(&["key"])));
}

#[test]
fn configured_primary_keys() {
    let ds = vec![
        DatasetEmbeddings { name: "x".to_string(), embedding_primary_keys: vec![None, Some(strings(&["k"]))] },
        DatasetEmbeddings { name: "y".to_string(), embedding_primary_keys: vec![None] },
    ];
    let keys = compute_primary_keys(&ds);
    assert_eq!(keys, vec![("x".to_string(), strings(&["k"]))]);
}

#[test]
fn each_model_embedded_once() {
    let models = models_to_embed(&vec![strings(&["m1", "m2"]), strings(&["m2"]), strings(&["m3", "m1"])]);
    assert_eq!(models, strings(&["m1", "m2", "m3"]));
}

#[test]
fn pool_settings() {
    assert!(ODBCPool::new(vec![]).is_err());
    let pool = ODBCPool::new(vec![("odbc_connection_string".to_string(), "DSN=x".to_string())]).unwrap();
    assert_eq!(pool.connection_string, "DSN=x");
    assert!(matches!(pool.join_push_down(), JoinPushDown::Disallow));
    assert!(flightsql_endpoint(&vec![]).is_err());
    assert_eq!(flightsql_endpoint(&vec![("endpoint".to_string(), "https://h".to_string())]).unwrap(), "https://h");
    let (u, p) = flightsql_credentials(&vec![("username".to_string(), "me".to_string())]);
    assert_eq!((u.as_str(), p.as_str()), ("me", ""));
}

#[test]
fn entries_come_from_the_last_column() {
    let batch = RecordBatch {
        schema: vec![
            Field::new("id".to_string(), DataType::Int64, false),
            Field::new("body".to_string(), DataType::Utf8, true),
        ],
        columns: vec![
            vec![Some(Scalar::Int64(1)), Some(Scalar::Int64(2))],
            vec![Some(Scalar::Utf8("hello".to_string())), None],
        ],
        row_count: 2,
    };
    assert_eq!(retrieved_entries(&vec![batch], "body").unwrap(), vec!["hello".to_string(), String::new()]);
    let numbers = RecordBatch {
        schema: vec![Field::new("id".to_string(), DataType::Int64, false)],
        columns: vec![vec![Some(Scalar::Int64(1))]],
        row_count: 1,
    };
    match retrieved_entries(&vec![numbers], "body") {
        Err(Error::DataFusionError { message }) => assert_eq!(
            message,
            "Expected 'body' to be last column of SQL query and return a String type"
        ),
        other => panic!("expected an error, got {other:?}"),
    }
}

#[test]
fn table_query_uses_overrides() {

    let vs = VectorSearch::new(vec![("docs".to_string(), strings(&["doc_id"]))]);
    let t = "docs".to_string();
    assert_eq!(
        vs.table_query(&t, &vec![], &strings(&["body"]), 1, "[1.0]", &RetrievalLimit::TopN(5)).unwrap(),
        "SELECT doc_id, body FROM docs ORDER BY array_distance(body_embedding, [1.0]) LIMIT 5"
    );
    assert_eq!(
        vs.table_query(&t, &strings(&["id"]), &strings(&["body"]), 1, "[1.0]", &RetrievalLimit::TopN(2)).unwrap(),
        "SELECT id, body FROM docs ORDER BY array_distance(body_embedding, [1.0]) LIMIT 2"
    );
    let other = "notes".to_string();
    assert_eq!(
        vs.table_query(&other, &vec![], &strings(&["text"]), 1, "[0.0]", &RetrievalLimit::TopN(1)).unwrap(),
        "SELECT text FROM notes ORDER BY array_distance(text_embedding, [0.0]) LIMIT 1"
    );
    assert!(vs.table_query(&t, &vec![], &strings(&["body"]), 2, "[1.0]", &RetrievalLimit::TopN(5)).is_err());
}

#[test]
fn embedding_column_errors_name_the_table() {
    let t = "docs".to_string();
    match select_embedding_column(&t, &vec![], 1) {
        Err(Error::NoEmbeddingColumns { data_source }) => assert_eq!(data_source, "docs"),
        other => panic!("expected an error, got {other:?}"),
    }
    match primary_keys_from_constraints(&vec![Constraint::PrimaryKey(vec![9])], &strings(&["id"])) {
        Err(Error::DataFusionError { message }) => assert_eq!(message, "primary key column 9 is outside the schema"),
        other => panic!("expected an error, got {other:?}"),
    }
}
