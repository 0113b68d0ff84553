use spice_core::columnar::{Constraint, DataType, Field};
use spice_core::options::{
    mode_from_option, parse_column_reference, parse_indexes, parse_on_conflict,
    provisioning_statements, IndexType, Mode, SqliteTableFactory,
};
use spice_core::provisioning::{
    build_on_conflict, create_index_sql, Sqlite, create_table_sql, delete_all_sql, delete_from_sql,
    insert_sql, table_exists_from_probe, table_exists_sql, OnConflict,
};

fn strings(v: &[&str]) -> Vec<String> {
    v.iter().map(|s| s.to_string()).collect()
}

#[test]
fn table_probe_and_deletes() {
    assert_eq!(
        table_exists_sql("users"),
        "SELECT EXISTS(SELECT 1 FROM sqlite_master WHERE type='table' AND name='users')"
    );
    assert!(table_exists_from_probe(Ok(true)));
    assert!(!table_exists_from_probe(Ok(false)));
    assert!(!table_exists_from_probe(Err(())));
    assert_eq!(delete_all_sql("users"), r#"DELETE FROM "users""#);
    assert_eq!(delete_from_sql("users", "id > 3"), r#"DELETE FROM "users" WHERE id > 3"#);
}

#[test]
fn table_exists_probe_is_stable_across_calls() {
    let first = table_exists_sql("t");
    let second = table_exists_sql("t");
    assert_eq!(first, second);
    assert_eq!(table_exists_from_probe(Ok(false)), table_exists_from_probe(Ok(false)));
}

#[test]
fn index_statements() {
    assert_eq!(
        create_index_sql("t", &strings(&["a", "b"]), true),
        r#"CREATE UNIQUE INDEX IF NOT EXISTS "i_t_a_b" ON "t" ("a", "b")"#
    );
    assert_eq!(
        create_index_sql("t", &strings(&["b", "a"]), false),
        r#"CREATE INDEX IF NOT EXISTS "i_t_b_a" ON "t" ("b", "a")"#
    );
}

#[test]
fn create_table_with_primary_key() {
    let schema = vec![
        Field::new("id".to_string(), DataType::Int64, false),
        Field::new("name".to_string(), DataType::Utf8, true),
        Field::new("score".to_string(), DataType::Float64, true),
    ];
    assert_eq!(
        create_table_sql("t", &schema, &strings(&["id"])).unwrap(),
        r#"CREATE TABLE IF NOT EXISTS "t" ("id" integer NOT NULL, "name" text, "score" real, PRIMARY KEY ("id"))"#
    );
    let without_key = vec![
        Field::new("name".to_string(), DataType::Utf8, true),
        Field::new("score".to_string(), DataType::Float64, true),
    ];
    assert_eq!(
        create_table_sql("t", &without_key, &vec![]).unwrap(),
        r#"CREATE TABLE IF NOT EXISTS "t" ("name" text, "score" real)"#
    );
    let nested = vec![Field::new("s".to_string(), DataType::Struct(vec![]), true)];
    assert!(create_table_sql("t", &nested, &vec![]).is_none());
}

#[test]
fn insert_with_conflict_policies() {
    let cols = strings(&["id", "name"]);
    assert_eq!(
        insert_sql("t", &cols, 2, None).unwrap(),
        r#"INSERT INTO "t" ("id", "name") VALUES (?, ?), (?, ?)"#
    );
    let ignore = OnConflict::Ignore(strings(&["id"]));
    assert_eq!(
        insert_sql("t", &cols, 1, Some(&ignore)).unwrap(),
        r#"INSERT INTO "t" ("id", "name") VALUES (?, ?) ON CONFLICT ("id") DO NOTHING"#
    );
    let upsert = OnConflict::Upsert(strings(&["id"]));
    assert_eq!(
        build_on_conflict(&upsert, &cols),
        r#" ON CONFLICT ("id") DO UPDATE SET "name" = EXCLUDED."name""#
    );
    let upsert_all_keys = OnConflict::Upsert(strings(&["id", "name"]));
    assert_eq!(
        build_on_conflict(&upsert_all_keys, &cols),
        r#" ON CONFLICT ("id", "name") DO NOTHING"#
    );
    assert!(insert_sql("t", &cols, 0, None).is_none());
}

#[test]
fn column_references() {
    assert_eq!(parse_column_reference("a").unwrap(), strings(&["a"]));
    assert_eq!(parse_column_reference(" (a, b ,c) ").unwrap(), strings(&["a", "b", "c"]));
    assert!(parse_column_reference("").is_err());
    assert!(parse_column_reference("(a,)").is_err());
    assert!(parse_column_reference("a,b").is_err());
}

#[test]
fn indexes_option() {
    let parsed = parse_indexes("a:unique;(b, c):enabled;").unwrap();
    assert_eq!(parsed.len(), 2);
    assert_eq!(parsed[0].0, strings(&["a"]));
    assert_eq!(parsed[0].1, IndexType::Unique);
    assert_eq!(parsed[1].0, strings(&["b", "c"]));
    assert_eq!(parsed[1].1, IndexType::Enabled);
    assert!(parse_indexes("a:primary").is_err());
    assert!(parse_indexes("a").is_err());
}

#[test]
fn on_conflict_option() {
    assert!(matches!(parse_on_conflict("id:drop"), Ok(OnConflict::Ignore(ref k)) if k == &strings(&["id"])));
    assert!(matches!(parse_on_conflict("(id, ts):upsert"), Ok(OnConflict::Upsert(ref k)) if k == &strings(&["id", "ts"])));
    assert!(parse_on_conflict("id:replace").is_err());
}

#[test]
fn factory_plan_and_statements() {
    let factory = SqliteTableFactory::new();
    assert_eq!(factory.db_path_param, "sqlite_file");
    let options = vec![
        ("mode".to_string(), "file".to_string()),
        ("indexes".to_string(), "name:enabled".to_string()),
        ("on_conflict".to_string(), "id:upsert".to_string()),
    ];
    let plan = factory.plan("users", &options).unwrap();
    assert_eq!(plan.mode, Mode::File);
    assert_eq!(plan.db_path, "users_sqlite.db");
    assert!(matches!(plan.on_conflict, Some(OnConflict::Upsert(_))));
    let schema = vec![
        Field::new("id".to_string(), DataType::Int32, false),
        Field::new("name".to_string(), DataType::Utf8, true),
    ];
    let stmts = provisioning_statements(&plan, &schema, &strings(&["id"]), false).unwrap();
    assert_eq!(stmts.len(), 2);
    assert_eq!(stmts[1], r#"CREATE INDEX IF NOT EXISTS "i_users_name" ON "users" ("name")"#);
    assert!(provisioning_statements(&plan, &schema, &strings(&["id"]), true).unwrap().is_empty());

    let with_path = vec![("sqlite_file".to_string(), "/tmp/x.db".to_string())];
    let plan = factory.plan("users", &with_path).unwrap();
    assert_eq!(plan.db_path, "/tmp/x.db");
    assert_eq!(plan.mode, Mode::Memory);
    assert!(factory.plan("users", &vec![("indexes".to_string(), "(a:unique".to_string())]).is_err());
    assert_eq!(mode_from_option(Some(&"memory".to_string())), Mode::Memory);
}

#[test]
fn provisioned_table_statements() {
    let schema = vec![
        Field::new("id".to_string(), DataType::Int64, false),
        Field::new("v".to_string(), DataType::Utf8, true),
    ];
    let t = Sqlite::new("m".to_string(), schema, vec![Constraint::PrimaryKey(vec![0])]);
    assert_eq!(t.constraints().len(), 1);
    let keys = t.primary_keys().unwrap();
    assert_eq!(keys, strings(&["id"]));
    assert_eq!(
        t.create_table(&keys).unwrap(),
        r#"CREATE TABLE IF NOT EXISTS "m" ("id" integer NOT NULL, "v" text, PRIMARY KEY ("id"))"#
    );
    assert_eq!(
        t.insert_batch(1, Some(&OnConflict::Upsert(keys.clone()))).unwrap(),
        r#"INSERT INTO "m" ("id", "v") VALUES (?, ?) ON CONFLICT ("id") DO UPDATE SET "v" = EXCLUDED."v""#
    );
    assert_eq!(t.delete_all_table_data(), r#"DELETE FROM "m""#);
    assert_eq!(t.delete_from("v IS NULL"), r#"DELETE FROM "m" WHERE v IS NULL"#);
    assert_eq!(t.create_index(&strings(&["v"]), false), r#"CREATE INDEX IF NOT EXISTS "i_m_v" ON "m" ("v")"#);
    assert!(t.table_exists_sql().ends_with("name='m')"));
}

#[test]
fn default_factory_reads_sqlite_file_option() {
    let factory = SqliteTableFactory::default();
    let options = vec![("sqlite_file".to_string(), "data.db".to_string())];
    assert_eq!(factory.db_path(&options, "t"), "data.db");
    assert_eq!(factory.db_path(&vec![], "t"), "t_sqlite.db");
}

#[test]
fn quotes_inside_names_are_doubled() {
    assert_eq!(delete_all_sql(r#"a"b"#), r#"DELETE FROM "a""b""#);
    assert_eq!(
        table_exists_sql("o'neil"),
        "SELECT EXISTS(SELECT 1 FROM sqlite_master WHERE type='table' AND name='o''neil')"
    );
    assert_eq!(
        create_index_sql("t", &strings(&[r#"x"y"#]), false),
        r#"CREATE INDEX IF NOT EXISTS "i_t_x""y" ON "t" ("x""y")"#
    );
}
