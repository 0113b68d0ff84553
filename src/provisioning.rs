use crate::columnar::{Constraint, DataType, Field};
use crate::vector_search::{join_comma, primary_key_positions, primary_keys_from_constraints, views, Error};
use vstd::prelude::*;
use vstd::string::*;

verus! {

/// What an insert does with a row whose key is already present.
#[derive(Debug)]
pub enum OnConflict {
    /// Keep the existing row.
    Ignore(Vec<String>),
    /// Overwrite the existing row's other columns with the new values.
    Upsert(Vec<String>),
}

/// `s` with each `q` doubled, as SQL escapes a quote inside a quoted text.
pub open spec fn escape_quote(s: Seq<char>, q: char) -> Seq<char>
    decreases s.len(),
{
    if s.len() == 0 {
        Seq::empty()
    } else {
        escape_quote(s.drop_last(), q) + if s.last() == q {
            seq![q, q]
        } else {
            seq![s.last()]
        }
    }
}

/// Appends `s` with each `q` doubled; `pair` is `q` twice.
fn push_escaped(out: &mut String, s: &str, q: char, pair: &str)
    requires
        pair@ == seq![q, q],
    ensures
        final(out)@ == old(out)@ + escape_quote(s@, q),
{
    let ghost start = old(out)@;
    let n = s.unicode_len();
    let mut i: usize = 0;
    while i < n
        invariant
            n == s@.len(),
            i <= n,
            pair@ == seq![q, q],
            out@ == start + escape_quote(s@.take(i as int), q),
        decreases n - i,
    {
        assert(s@.take(i + 1).drop_last() =~= s@.take(i as int));
        let c = s.get_char(i);
        assert(s@.take(i + 1).last() == c);
        if c == q {
            out.append(pair);
        } else {
            let one = s.substring_char(i, i + 1);
            assert(one@ =~= seq![c]);
            out.append(one);
        }
        assert(out@ =~= start + escape_quote(s@.take(i + 1), q));
        i = i + 1;
    }
    assert(s@.take(n as int) =~= s@);
}

/// A name in double quotes, with each double quote in it doubled.
pub open spec fn quoted(name: Seq<char>) -> Seq<char> {
    seq!['"'] + escape_quote(name, '"') + seq!['"']
}

pub open spec fn quoted_all(names: Seq<Seq<char>>) -> Seq<Seq<char>> {
    Seq::new(names.len(), |i: int| quoted(names[i]))
}

fn push_quoted(out: &mut String, name: &str)
    ensures
        final(out)@ == old(out)@ + quoted(name@),
{
    proof {
        reveal_strlit("\"");
        reveal_strlit("\"\"");
    }
    out.append("\"");
    assert("\"\""@ =~= seq!['"', '"']);
    push_escaped(out, name, '"', "\"\"");
    out.append("\"");
    assert(final(out)@ =~= old(out)@ + quoted(name@));
}

fn quote_all(names: &Vec<String>) -> (r: Vec<String>)
    ensures
        views(r@) == quoted_all(views(names@)),
{
    let mut out: Vec<String> = Vec::new();
    let mut i: usize = 0;
    while i < names.len()
        invariant
            i <= names@.len(),
            out@.len() == i,
            forall|k: int| 0 <= k < i ==> #[trigger] out@[k]@ == quoted(names@[k]@),
        decreases names@.len() - i,
    {
        let mut q = String::new();
        push_quoted(&mut q, names[i].as_str());
        out.push(q);
        i = i + 1;
    }
    assert(views(out@) =~= quoted_all(views(names@)));
    out
}

/// Appends the items joined with ", ".
pub(crate) fn push_join(out: &mut String, items: &Vec<String>)
    ensures
        final(out)@ == old(out)@ + join_comma(views(items@)),
{
    let ghost start = old(out)@;
    let ghost all = views(items@);
    let mut i: usize = 0;
    while i < items.len()
        invariant
            i <= items@.len(),
            all == views(items@),
            out@ == start + join_comma(all.take(i as int)),
        decreases items@.len() - i,
    {
        proof { reveal_strlit(", "); }
        assert(all.take(i + 1).drop_last() =~= all.take(i as int));
        assert(all.take(i + 1).last() == items@[i as int]@);
        if i > 0 {
            out.append(", ");
        }
        out.append(items[i].as_str());
        assert(out@ =~= start + join_comma(all.take(i + 1)));
        i = i + 1;
    }
    assert(all.take(i as int) =~= all);
}

/// The catalog probe for a table; the name is a text literal, with each
/// single quote in it doubled.
pub open spec fn table_exists_query(table: Seq<char>) -> Seq<char> {
    "SELECT EXISTS(SELECT 1 FROM sqlite_master WHERE type='table' AND name='"@ + escape_quote(table, '\'') + "')"@
}

/// The statement that tells whether `table` exists.
pub fn table_exists_sql(table: &str) -> (r: String)
    ensures
        r@ == table_exists_query(table@),
{
    let mut out = String::new();
    out.append("SELECT EXISTS(SELECT 1 FROM sqlite_master WHERE type='table' AND name='");
    proof { reveal_strlit("''"); }
    assert("''"@ =~= seq!['\'', '\'']);
    push_escaped(&mut out, table, '\'', "''");
    out.append("')");
    assert(out@ =~= table_exists_query(table@));
    out
}

/// Whether the table exists, from the probe's outcome: a failed probe counts
/// as absent.
pub fn table_exists_from_probe(probe: Result<bool, ()>) -> (r: bool)
    ensures
        r == (probe matches Ok(b) && b),
{
    match probe {
        Ok(b) => b,
        Err(_) => false,
    }
}

pub open spec fn delete_all_query(table: Seq<char>) -> Seq<char> {
    "DELETE FROM "@ + quoted(table)
}

/// The statement that deletes every row of `table`.
pub fn delete_all_sql(table: &str) -> (r: String)
    ensures
        r@ == delete_all_query(table@),
{
    let mut out = String::new();
    out.append("DELETE FROM ");
    push_quoted(&mut out, table);
    assert(out@ =~= delete_all_query(table@));
    out
}

pub open spec fn delete_where_query(table: Seq<char>, where_clause: Seq<char>) -> Seq<char> {
    "DELETE FROM "@ + quoted(table) + " WHERE "@ + where_clause
}

/// The statement that deletes the rows of `table` that match `where_clause`.
pub fn delete_from_sql(table: &str, where_clause: &str) -> (r: String)
    ensures
        r@ == delete_where_query(table@, where_clause@),
{
    let mut out = String::new();
    out.append("DELETE FROM ");
    push_quoted(&mut out, table);
    out.append(" WHERE ");
    out.append(where_clause);
    assert(out@ =~= delete_where_query(table@, where_clause@));
    out
}

/// Names joined with "_".
pub open spec fn join_underscore(items: Seq<Seq<char>>) -> Seq<char>
    decreases items.len(),
{
    if items.len() == 0 {
        Seq::empty()
    } else {
        join_underscore(items.drop_last()) + seq!['_'] + items.last()
    }
}

/// `CREATE [UNIQUE] INDEX IF NOT EXISTS "i_<table>_<col>_..." ON "<table>" ("<col>", ...)`.
pub open spec fn create_index_query(table: Seq<char>, columns: Seq<Seq<char>>, unique: bool) -> Seq<char> {
    (if unique {
        "CREATE UNIQUE INDEX IF NOT EXISTS "@
    } else {
        "CREATE INDEX IF NOT EXISTS "@
    }) + quoted(seq!['i', '_'] + table + join_underscore(columns)) + " ON "@ + quoted(table) + " ("@
        + join_comma(quoted_all(columns)) + ")"@
}

/// The statement that creates an index over `columns`, in that order.
pub fn create_index_sql(table: &str, columns: &Vec<String>, unique: bool) -> (r: String)
    ensures
        r@ == create_index_query(table@, views(columns@), unique),
{
    let mut out = String::new();
    if unique {
        out.append("CREATE UNIQUE INDEX IF NOT EXISTS ");
    } else {
        out.append("CREATE INDEX IF NOT EXISTS ");
    }
    let mut name = String::new();
    proof { reveal_strlit("i_"); }
    name.append("i_");
    name.append(table);
    assert(name@ =~= seq!['i', '_'] + table@);
    let ghost all = views(columns@);
    let ghost base = name@;
    let mut i: usize = 0;
    while i < columns.len()
        invariant
            i <= columns@.len(),
            all == views(columns@),
            name@ == base + join_underscore(all.take(i as int)),
        decreases columns@.len() - i,
    {
        proof { reveal_strlit("_"); }
        assert(all.take(i + 1).drop_last() =~= all.take(i as int));
        name.append("_");
        name.append(columns[i].as_str());
        assert(name@ =~= base + join_underscore(all.take(i + 1)));
        i = i + 1;
    }
    assert(all.take(i as int) =~= all);
    assert(name@ =~= seq!['i', '_'] + table@ + join_underscore(all));
    push_quoted(&mut out, name.as_str());
    out.append(" ON ");
    push_quoted(&mut out, table);
    out.append(" (");
    let quoted_columns = quote_all(columns);
    push_join(&mut out, &quoted_columns);
    out.append(")");
    assert(out@ =~= create_index_query(table@, views(columns@), unique));
    out
}

/// The SQLite type a column of canonical type `d` is declared with; none for
/// nested types.
pub open spec fn sqlite_type(d: DataType) -> Option<Seq<char>> {
    match d {
        DataType::Boolean | DataType::Int8 | DataType::Int16 | DataType::Int32 | DataType::Int64
        | DataType::UInt32 | DataType::Date32 | DataType::Timestamp(_, _) => Some("integer"@),
        DataType::Float32 | DataType::Float64 => Some("real"@),
        DataType::Utf8 | DataType::LargeUtf8 | DataType::Decimal128(_, _) => Some("text"@),
        DataType::Binary | DataType::LargeBinary => Some("blob"@),
        DataType::List(_) | DataType::Struct(_) => None,
    }
}

fn sqlite_type_of(d: &DataType) -> (r: Option<&'static str>)
    ensures
        r matches Some(s) ==> sqlite_type(*d) == Some(s@),
        r is None ==> sqlite_type(*d) is None,
{
    match d {
        DataType::Boolean | DataType::Int8 | DataType::Int16 | DataType::Int32 | DataType::Int64
        | DataType::UInt32 | DataType::Date32 | DataType::Timestamp(_, _) => Some("integer"),
        DataType::Float32 | DataType::Float64 => Some("real"),
        DataType::Utf8 | DataType::LargeUtf8 | DataType::Decimal128(_, _) => Some("text"),
        DataType::Binary | DataType::LargeBinary => Some("blob"),
        DataType::List(_) | DataType::Struct(_) => None,
    }
}

/// A column definition: quoted name, type, and `NOT NULL` for a field that
/// cannot hold nulls.
pub open spec fn column_definition(f: Field) -> Seq<char> {
    quoted(f.name@) + seq![' '] + sqlite_type(f.data_type)->0 + (if f.nullable {
        Seq::empty()
    } else {
        " NOT NULL"@
    })
}

pub open spec fn column_definitions(fs: Seq<Field>) -> Seq<Seq<char>> {
    Seq::new(fs.len(), |i: int| column_definition(fs[i]))
}

/// Every field has a SQLite type.
pub open spec fn all_typed(fs: Seq<Field>) -> bool {
    forall|i: int| 0 <= i < fs.len() ==> #[trigger] sqlite_type(fs[i].data_type) is Some
}

/// `CREATE TABLE IF NOT EXISTS "<table>" (<column definitions>[, PRIMARY KEY ("<key>", ...)])`.
pub open spec fn create_table_query(table: Seq<char>, fs: Seq<Field>, keys: Seq<Seq<char>>) -> Seq<char> {
    let defs = if keys.len() == 0 {
        column_definitions(fs)
    } else {
        column_definitions(fs).push("PRIMARY KEY ("@ + join_comma(quoted_all(keys)) + ")"@)
    };
    "CREATE TABLE IF NOT EXISTS "@ + quoted(table) + " ("@ + join_comma(defs) + ")"@
}

/// The statement that creates `table` with the given schema; the primary
/// keys become a table constraint. `None` where a field has a nested type.
pub fn create_table_sql(table: &str, schema: &Vec<Field>, primary_keys: &Vec<String>) -> (r: Option<String>)
    ensures
        r is Some <==> all_typed(schema@),
        r matches Some(s) ==> s@ == create_table_query(table@, schema@, views(primary_keys@)),
{
    let mut defs: Vec<String> = Vec::new();
    let mut i: usize = 0;
    while i < schema.len()
        invariant
            i <= schema@.len(),
            defs@.len() == i,
            forall|k: int| 0 <= k < i ==> #[trigger] sqlite_type(schema@[k].data_type) is Some,
            forall|k: int| 0 <= k < i ==> #[trigger] defs@[k]@ == column_definition(schema@[k]),
        decreases schema@.len() - i,
    {
        let f = &schema[i];
        let ty = match sqlite_type_of(&f.data_type) {
            Some(ty) => ty,
            None => {
                return None;
            },
        };
        let mut def = String::new();
        push_quoted(&mut def, f.name.as_str());
        proof {
            reveal_strlit(" ");
            reveal_strlit(" NOT NULL");
        }
        def.append(" ");
        def.append(ty);
        if !f.nullable {
            def.append(" NOT NULL");
        }
        assert(def@ =~= column_definition(schema@[i as int]));
        defs.push(def);
        i = i + 1;
    }
    assert(views(defs@) =~= column_definitions(schema@));
    let ghost plain = views(defs@);
    if primary_keys.len() > 0 {
        let mut pk = String::new();
        pk.append("PRIMARY KEY (");
        let quoted_keys = quote_all(primary_keys);
        push_join(&mut pk, &quoted_keys);
        pk.append(")");
        defs.push(pk);
        assert(views(defs@) =~= plain.push("PRIMARY KEY ("@ + join_comma(quoted_all(views(primary_keys@))) + ")"@));
    }
    let mut out = String::new();
    out.append("CREATE TABLE IF NOT EXISTS ");
    push_quoted(&mut out, table);
    out.append(" (");
    push_join(&mut out, &defs);
    out.append(")");
    assert(out@ =~= create_table_query(table@, schema@, views(primary_keys@)));
    Some(out)
}

/// The names of `columns` that are not among `keys`, in order.
pub open spec fn non_keys(columns: Seq<Seq<char>>, keys: Seq<Seq<char>>) -> Seq<Seq<char>>
    decreases columns.len(),
{
    if columns.len() == 0 {
        Seq::empty()
    } else if keys.contains(columns.last()) {
        non_keys(columns.drop_last(), keys)
    } else {
        non_keys(columns.drop_last(), keys).push(columns.last())
    }
}

/// `"c" = EXCLUDED."c"` for each name.
pub open spec fn assignments(names: Seq<Seq<char>>) -> Seq<Seq<char>> {
    Seq::new(names.len(), |i: int| quoted(names[i]) + " = EXCLUDED."@ + quoted(names[i]))
}

/// The conflict clause of an insert: keep the stored row, or overwrite its
/// other columns with the new values (keep it where there are none).
pub open spec fn on_conflict_clause(policy: OnConflict, columns: Seq<Seq<char>>) -> Seq<char> {
    match policy {
        OnConflict::Ignore(keys) => " ON CONFLICT ("@ + join_comma(quoted_all(views(keys@))) + ") DO NOTHING"@,
        OnConflict::Upsert(keys) => if non_keys(columns, views(keys@)).len() == 0 {
            " ON CONFLICT ("@ + join_comma(quoted_all(views(keys@))) + ") DO NOTHING"@
        } else {
            " ON CONFLICT ("@ + join_comma(quoted_all(views(keys@))) + ") DO UPDATE SET "@ + join_comma(
                assignments(non_keys(columns, views(keys@))),
            )
        },
    }
}

fn contains_name(v: &Vec<String>, x: &String) -> (r: bool)
    ensures
        r == views(v@).contains(x@),
{
    let mut i: usize = 0;
    while i < v.len()
        invariant
            i <= v@.len(),
            forall|k: int| 0 <= k < i ==> v@[k]@ != x@,
        decreases v@.len() - i,
    {
        if v[i] == *x {
            assert(views(v@)[i as int] == x@);
            return true;
        }
        i = i + 1;
    }
    proof {
        if views(v@).contains(x@) {
            let k = choose|k: int| 0 <= k < views(v@).len() && views(v@)[k] == x@;
            assert(v@[k]@ == x@);
        }
    }
    false
}

/// Builds the conflict clause of an insert into a table with `columns`.
pub fn build_on_conflict(policy: &OnConflict, columns: &Vec<String>) -> (r: String)
    ensures
        r@ == on_conflict_clause(*policy, views(columns@)),
{
    let keys = match policy {
        OnConflict::Ignore(keys) => keys,
        OnConflict::Upsert(keys) => keys,
    };
    let mut out = String::new();
    out.append(" ON CONFLICT (");
    let quoted_keys = quote_all(keys);
    push_join(&mut out, &quoted_keys);
    let ghost head = out@;
    let mut sets: Vec<String> = Vec::new();
    if let OnConflict::Upsert(_) = policy {
        let ghost all = views(columns@);
        let mut i: usize = 0;
        while i < columns.len()
            invariant
                i <= columns@.len(),
                all == views(columns@),
                views(sets@) == assignments(non_keys(all.take(i as int), views(keys@))),
            decreases columns@.len() - i,
        {
            assert(all.take(i + 1).drop_last() =~= all.take(i as int));
            assert(all.take(i + 1).last() == columns@[i as int]@);
            let ghost prev = views(sets@);
            let ghost c = columns@[i as int]@;
            assert(non_keys(all.take(i + 1), views(keys@)) == if views(keys@).contains(c) {
                non_keys(all.take(i as int), views(keys@))
            } else {
                non_keys(all.take(i as int), views(keys@)).push(c)
            });
            if !contains_name(keys, &columns[i]) {
                let mut a = String::new();
                push_quoted(&mut a, columns[i].as_str());
                proof { reveal_strlit(" = EXCLUDED."); }
                a.append(" = EXCLUDED.");
                push_quoted(&mut a, columns[i].as_str());
                assert(a@ == quoted(c) + " = EXCLUDED."@ + quoted(c));
                sets.push(a);
                assert(views(sets@) =~= prev.push(quoted(c) + " = EXCLUDED."@ + quoted(c)));
            }
            assert(views(sets@) =~= assignments(non_keys(all.take(i + 1), views(keys@))));
            i = i + 1;
        }
        assert(all.take(i as int) =~= all);
    }
    if sets.len() == 0 {
        out.append(") DO NOTHING");
    } else {
        out.append(") DO UPDATE SET ");
        push_join(&mut out, &sets);
    }
    assert(out@ =~= on_conflict_clause(*policy, views(columns@)));
    out
}

/// `(?, ?, ...)` with one placeholder per column.
pub open spec fn placeholder_row(n: nat) -> Seq<char> {
    "("@ + join_comma(Seq::new(n, |i: int| "?"@)) + ")"@
}

/// `INSERT INTO "<table>" ("<col>", ...) VALUES (?, ...), ...` with one
/// placeholder row per batch row, then the conflict clause if any.
pub open spec fn insert_query(table: Seq<char>, columns: Seq<Seq<char>>, rows: nat, on_conflict: Option<OnConflict>) -> Seq<char> {
    "INSERT INTO "@ + quoted(table) + " ("@ + join_comma(quoted_all(columns)) + ") VALUES "@ + join_comma(
        Seq::new(rows, |i: int| placeholder_row(columns.len())),
    ) + match on_conflict {
        Some(p) => on_conflict_clause(p, columns),
        None => Seq::empty(),
    }
}

/// The single parameterized statement that inserts a whole batch; `None` for
/// a batch without rows or columns.
pub fn insert_sql(table: &str, columns: &Vec<String>, rows: usize, on_conflict: Option<&OnConflict>) -> (r: Option<String>)
    ensures
        r is Some <==> rows > 0 && columns@.len() > 0,
        r matches Some(s) ==> s@ == insert_query(table@, views(columns@), rows as nat, match on_conflict {
            Some(p) => Some(*p),
            None => None,
        }),
{
    if rows == 0 || columns.len() == 0 {
        return None;
    }
    let mut marks: Vec<String> = Vec::new();
    let mut i: usize = 0;
    while i < columns.len()
        invariant
            i <= columns@.len(),
            marks@.len() == i,
            forall|k: int| 0 <= k < i ==> #[trigger] marks@[k]@ == "?"@,
        decreases columns@.len() - i,
    {
        marks.push(String::from_str("?"));
        i = i + 1;
    }
    let mut row = String::new();
    row.append("(");
    push_join(&mut row, &marks);
    row.append(")");
    assert(views(marks@) =~= Seq::new(columns@.len(), |k: int| "?"@));
    assert(row@ =~= placeholder_row(columns@.len()));
    let mut all_rows: Vec<String> = Vec::new();
    let mut k: usize = 0;
    while k < rows
        invariant
            k <= rows,
            all_rows@.len() == k,
            forall|j: int| 0 <= j < k ==> #[trigger] all_rows@[j]@ == placeholder_row(columns@.len()),
            row@ == placeholder_row(columns@.len()),
        decreases rows - k,
    {
        all_rows.push(row.clone());
        k = k + 1;
    }
    assert(views(all_rows@) =~= Seq::new(rows as nat, |j: int| placeholder_row(columns@.len())));
    let mut out = String::new();
    out.append("INSERT INTO ");
    push_quoted(&mut out, table);
    out.append(" (");
    let quoted_columns = quote_all(columns);
    push_join(&mut out, &quoted_columns);
    out.append(") VALUES ");
    push_join(&mut out, &all_rows);
    let ghost body = out@;
    match on_conflict {
        Some(p) => {
            let clause = build_on_conflict(p, columns);
            out.append(clause.as_str());
        },
        None => {},
    }
    assert(out@ =~= insert_query(table@, views(columns@), rows as nat, match on_conflict {
        Some(p) => Some(*p),
        None => None,
    }));
    Some(out)
}

/// A table mirrored into a local SQLite database: its name, schema and
/// constraints. Its operations are the statements that run against it.
#[derive(Debug)]
pub struct Sqlite {
    pub table_name: String,
    pub schema: Vec<Field>,
    pub constraints: Vec<Constraint>,
}

pub open spec fn field_names(fs: Seq<Field>) -> Seq<Seq<char>> {
    Seq::new(fs.len(), |i: int| fs[i].name@)
}

impl Sqlite {
    pub fn new(table_name: String, schema: Vec<Field>, constraints: Vec<Constraint>) -> (r: Sqlite)
        ensures
            r.table_name == table_name,
            r.schema == schema,
            r.constraints == constraints,
    {
        Sqlite { table_name, schema, constraints }
    }

    pub fn constraints(&self) -> (r: &Vec<Constraint>)
        ensures
            *r == self.constraints,
    {
        &self.constraints
    }

    fn column_names(&self) -> (r: Vec<String>)
        ensures
            views(r@) == field_names(self.schema@),
            r@.len() == self.schema@.len(),
            forall|k: int| 0 <= k < r@.len() ==> #[trigger] r@[k]@ == self.schema@[k].name@,
    {
        let mut out: Vec<String> = Vec::new();
        let mut i: usize = 0;
        while i < self.schema.len()
            invariant
                i <= self.schema@.len(),
                out@.len() == i,
                forall|k: int| 0 <= k < i ==> #[trigger] out@[k]@ == self.schema@[k].name@,
            decreases self.schema@.len() - i,
        {
            out.push(self.schema[i].name.clone());
            i = i + 1;
        }
        assert(views(out@) =~= field_names(self.schema@));
        out
    }

    /// The names of the table's primary-key columns.
    pub fn primary_keys(&self) -> (r: Result<Vec<String>, Error>)
        ensures
            r is Ok <==> forall|i: int| 0 <= i < primary_key_positions(self.constraints@).len()
                ==> #[trigger] primary_key_positions(self.constraints@)[i] < self.schema@.len(),
            r matches Ok(names) ==> views(names@) == Seq::new(
                primary_key_positions(self.constraints@).len(),
                |i: int| self.schema@[primary_key_positions(self.constraints@)[i] as int].name@,
            ),
    {
        let names = self.column_names();
        let r = primary_keys_from_constraints(&self.constraints, &names);
        proof {
            if let Ok(keys) = &r {
                assert(views(keys@) =~= Seq::new(
                    primary_key_positions(self.constraints@).len(),
                    |i: int| self.schema@[primary_key_positions(self.constraints@)[i] as int].name@,
                ));
            }
        }
        r
    }

    pub fn table_exists_sql(&self) -> (r: String)
        ensures
            r@ == table_exists_query(self.table_name@),
    {
        table_exists_sql(self.table_name.as_str())
    }

    pub fn create_table(&self, primary_keys: &Vec<String>) -> (r: Option<String>)
        ensures
            r is Some <==> all_typed(self.schema@),
            r matches Some(s) ==> s@ == create_table_query(self.table_name@, self.schema@, views(primary_keys@)),
    {
        create_table_sql(self.table_name.as_str(), &self.schema, primary_keys)
    }

    pub fn create_index(&self, columns: &Vec<String>, unique: bool) -> (r: String)
        ensures
            r@ == create_index_query(self.table_name@, views(columns@), unique),
    {
        create_index_sql(self.table_name.as_str(), columns, unique)
    }

    /// The insert of `rows` rows into every column of the table.
    pub fn insert_batch(&self, rows: usize, on_conflict: Option<&OnConflict>) -> (r: Option<String>)
        ensures
            r is Some <==> rows > 0 && self.schema@.len() > 0,
            r matches Some(s) ==> s@ == insert_query(self.table_name@, field_names(self.schema@), rows as nat, match on_conflict {
                Some(p) => Some(*p),
                None => None,
            }),
    {
        let names = self.column_names();
        insert_sql(self.table_name.as_str(), &names, rows, on_conflict)
    }

    pub fn delete_all_table_data(&self) -> (r: String)
        ensures
            r@ == delete_all_query(self.table_name@),
    {
        delete_all_sql(self.table_name.as_str())
    }

    pub fn delete_from(&self, where_clause: &str) -> (r: String)
        ensures
            r@ == delete_where_query(self.table_name@, where_clause@),
    {
        delete_from_sql(self.table_name.as_str(), where_clause)
    }
}

} // verus!
