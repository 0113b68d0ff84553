use crate::columnar::{Constraint, RecordBatch, Scalar};
use crate::options::keys_unique;
use crate::util::{decimal, push_decimal};
use vstd::prelude::*;
use vstd::string::*;

verus! {

/// Why a vector search could not run.
#[derive(Debug)]
pub enum Error {
    /// The engine's data did not have the expected shape.
    DataFusionError { message: String },
    NoEmbeddingColumns { data_source: String },
    IncorrectNumberOfEmbeddingColumns { data_source: String, num_embeddings: usize },
    /// Only a top-N limit is implemented.
    ThresholdNotSupported,
}

/// How many entries a search retrieves. A threshold is held as the bits of
/// its `f64` value.
#[derive(Debug, Clone, Copy)]
pub enum RetrievalLimit {
    TopN(usize),
    Threshold(u64),
}

/// The embedding settings of a dataset: for each embedding, the primary keys
/// it names, if any.
#[derive(Debug)]
pub struct DatasetEmbeddings {
    pub name: String,
    pub embedding_primary_keys: Vec<Option<Vec<String>>>,
}

/// The characters of each string.
pub open spec fn views(v: Seq<String>) -> Seq<Seq<char>> {
    Seq::new(v.len(), |i: int| v[i]@)
}

fn clone_strings(v: &Vec<String>) -> (r: Vec<String>)
    ensures
        views(r@) == views(v@),
{
    let mut out: Vec<String> = Vec::new();
    let mut i: usize = 0;
    while i < v.len()
        invariant
            i <= v@.len(),
            out@.len() == i,
            forall|k: int| 0 <= k < i ==> #[trigger] out@[k]@ == v@[k]@,
        decreases v@.len() - i,
    {
        out.push(v[i].clone());
        i = i + 1;
    }
    assert(views(out@) =~= views(v@));
    out
}

/// The number of entries to retrieve.
pub fn retrieval_count(limit: &RetrievalLimit) -> (r: Result<usize, Error>)
    ensures
        *limit matches RetrievalLimit::TopN(n) ==> (r matches Ok(k) && k == n),
        *limit is Threshold ==> r matches Err(Error::ThresholdNotSupported),
{
    match limit {
        RetrievalLimit::TopN(n) => Ok(*n),
        RetrievalLimit::Threshold(_) => Err(Error::ThresholdNotSupported),
    }
}

/// The columns of the first primary-key constraint, none if there is none.
pub open spec fn primary_key_positions(cs: Seq<Constraint>) -> Seq<usize>
    decreases cs.len(),
{
    if cs.len() == 0 {
        Seq::empty()
    } else {
        match cs[0] {
            Constraint::PrimaryKey(cols) => cols@,
            Constraint::Unique(_) => primary_key_positions(cs.skip(1)),
        }
    }
}

fn first_primary_key(cs: &Vec<Constraint>) -> (r: Option<&Vec<usize>>)
    ensures
        r matches Some(cols) ==> cols@ == primary_key_positions(cs@),
        r is None ==> primary_key_positions(cs@) == Seq::<usize>::empty(),
{
    let mut i: usize = 0;
    assert(cs@.skip(0) =~= cs@);
    while i < cs.len()
        invariant
            i <= cs@.len(),
            primary_key_positions(cs@) == primary_key_positions(cs@.skip(i as int)),
        decreases cs@.len() - i,
    {
        assert(cs@.skip(i as int)[0] == cs@[i as int]);
        assert(cs@.skip(i as int).skip(1) =~= cs@.skip(i + 1));
        if let Constraint::PrimaryKey(cols) = &cs[i] {
            return Some(cols);
        }
        i = i + 1;
    }
    None
}

/// The names of a table's primary-key columns, from its first primary-key
/// constraint and the names of its schema's fields. A position outside the
/// schema is an error.
pub fn primary_keys_from_constraints(constraints: &Vec<Constraint>, field_names: &Vec<String>) -> (r: Result<Vec<String>, Error>)
    ensures
        r is Ok <==> forall|i: int| 0 <= i < primary_key_positions(constraints@).len()
            ==> #[trigger] primary_key_positions(constraints@)[i] < field_names@.len(),
        r matches Ok(names) ==> names@.len() == primary_key_positions(constraints@).len() && forall|i: int|
            0 <= i < names@.len() ==> #[trigger] names@[i]@ == field_names@[primary_key_positions(constraints@)[i] as int]@,
{
    let cols = match first_primary_key(constraints) {
        Some(cols) => cols,
        None => {
            return Ok(Vec::new());
        },
    };
    let mut names: Vec<String> = Vec::new();
    let mut i: usize = 0;
    while i < cols.len()
        invariant
            cols@ == primary_key_positions(constraints@),
            i <= cols@.len(),
            names@.len() == i,
            forall|k: int| 0 <= k < i ==> #[trigger] cols@[k] < field_names@.len(),
            forall|k: int| 0 <= k < i ==> #[trigger] names@[k]@ == field_names@[cols@[k] as int]@,
        decreases cols@.len() - i,
    {
        let p = cols[i];
        if p >= field_names.len() {
            let mut message = String::from_str("primary key column ");
            push_decimal(&mut message, p as u128);
            message.append(" is outside the schema");
            return Err(Error::DataFusionError { message });
        }
        names.push(field_names[p].clone());
        i = i + 1;
    }
    Ok(names)
}

/// The keys configured for `table`, from a configuration held as pairs with
/// unique table names (`keys_unique`): those of the one pair for the table.
pub open spec fn explicit_keys(explicit: Seq<(String, Vec<String>)>, table: Seq<char>) -> Option<Seq<Seq<char>>>
    decreases explicit.len(),
{
    if explicit.len() == 0 {
        None
    } else if explicit[0].0@ == table {
        Some(views(explicit[0].1@))
    } else {
        explicit_keys(explicit.skip(1), table)
    }
}

fn find_explicit<'a>(explicit: &'a Vec<(String, Vec<String>)>, table: &String) -> (r: Option<&'a Vec<String>>)
    ensures
        r matches Some(v) ==> explicit_keys(explicit@, table@) == Some(views(v@)),
        r is None ==> explicit_keys(explicit@, table@) is None,
{
    let mut i: usize = 0;
    assert(explicit@.skip(0) =~= explicit@);
    while i < explicit.len()
        invariant
            i <= explicit@.len(),
            explicit_keys(explicit@, table@) == explicit_keys(explicit@.skip(i as int), table@),
        decreases explicit@.len() - i,
    {
        assert(explicit@.skip(i as int)[0] == explicit@[i as int]);
        assert(explicit@.skip(i as int).skip(1) =~= explicit@.skip(i + 1));
        if explicit[i].0 == *table {
            return Some(&explicit[i].1);
        }
        i = i + 1;
    }
    None
}

/// The keys a table is searched with: its own primary keys when it has any,
/// else those configured for it, else none (the table is left out).
pub open spec fn keys_with_override(own: Seq<Seq<char>>, explicit: Option<Seq<Seq<char>>>) -> Option<Seq<Seq<char>>> {
    if own.len() > 0 {
        Some(own)
    } else {
        explicit
    }
}

/// For each table in order, its primary keys: those of its constraints when
/// there are any, otherwise those configured explicitly. A table with neither
/// is left out.
pub open spec fn keys_per_table(
    tables: Seq<String>,
    own_keys: Seq<Vec<String>>,
    explicit: Seq<(String, Vec<String>)>,
) -> Seq<(Seq<char>, Seq<Seq<char>>)>
    decreases tables.len(),
{
    if tables.len() == 0 {
        Seq::empty()
    } else {
        let rest = keys_per_table(tables.drop_last(), own_keys.drop_last(), explicit);
        match keys_with_override(views(own_keys.last()@), explicit_keys(explicit, tables.last()@)) {
            Some(keys) => rest.push((tables.last()@, keys)),
            None => rest,
        }
    }
}

pub open spec fn pairs_view(v: Seq<(String, Vec<String>)>) -> Seq<(Seq<char>, Seq<Seq<char>>)> {
    Seq::new(v.len(), |i: int| (v[i].0@, views(v[i].1@)))
}

/// Pairs each table with the keys it is searched by.
pub fn primary_keys_with_overrides(
    tables: &Vec<String>,
    own_keys: &Vec<Vec<String>>,
    explicit: &Vec<(String, Vec<String>)>,
) -> (r: Vec<(String, Vec<String>)>)
    requires
        own_keys@.len() == tables@.len(),
        keys_unique(explicit@),
    ensures
        pairs_view(r@) == keys_per_table(tables@, own_keys@, explicit@),
{
    let mut out: Vec<(String, Vec<String>)> = Vec::new();
    let mut i: usize = 0;
    while i < tables.len()
        invariant
            own_keys@.len() == tables@.len(),
            i <= tables@.len(),
            pairs_view(out@) == keys_per_table(tables@.take(i as int), own_keys@.take(i as int), explicit@),
        decreases tables@.len() - i,
    {
        assert(tables@.take(i + 1).drop_last() =~= tables@.take(i as int));
        assert(own_keys@.take(i + 1).drop_last() =~= own_keys@.take(i as int));
        assert(tables@.take(i + 1).last() == tables@[i as int]);
        assert(own_keys@.take(i + 1).last() == own_keys@[i as int]);
        if own_keys[i].len() > 0 {
            out.push((tables[i].clone(), clone_strings(&own_keys[i])));
            assert(pairs_view(out@) =~= keys_per_table(tables@.take(i + 1), own_keys@.take(i + 1), explicit@));
        } else {
            match find_explicit(explicit, &tables[i]) {
                Some(keys) => {
                    out.push((tables[i].clone(), clone_strings(keys)));
                    assert(pairs_view(out@) =~= keys_per_table(tables@.take(i + 1), own_keys@.take(i + 1), explicit@));
                },
                None => {},
            }
        }
        i = i + 1;
    }
    assert(tables@.take(i as int) =~= tables@);
    assert(own_keys@.take(i as int) =~= own_keys@);
    out
}

/// The keys of the first embedding of a dataset that names any.
pub open spec fn first_keys(es: Seq<Option<Vec<String>>>) -> Option<Seq<Seq<char>>>
    decreases es.len(),
{
    if es.len() == 0 {
        None
    } else {
        match es[0] {
            Some(v) => Some(views(v@)),
            None => first_keys(es.skip(1)),
        }
    }
}

fn first_embedding_keys(es: &Vec<Option<Vec<String>>>) -> (r: Option<&Vec<String>>)
    ensures
        r matches Some(v) ==> first_keys(es@) == Some(views(v@)),
        r is None ==> first_keys(es@) is None,
{
    let mut i: usize = 0;
    assert(es@.skip(0) =~= es@);
    while i < es.len()
        invariant
            i <= es@.len(),
            first_keys(es@) == first_keys(es@.skip(i as int)),
        decreases es@.len() - i,
    {
        assert(es@.skip(i as int)[0] == es@[i as int]);
        assert(es@.skip(i as int).skip(1) =~= es@.skip(i + 1));
        if let Some(v) = &es[i] {
            return Some(v);
        }
        i = i + 1;
    }
    None
}

/// The datasets that name primary keys in one of their embeddings, in order,
/// each with the keys of the first such embedding. Dataset names are unique,
/// so each table appears at most once.
pub open spec fn configured_keys(ds: Seq<DatasetEmbeddings>) -> Seq<(Seq<char>, Seq<Seq<char>>)>
    decreases ds.len(),
{
    if ds.len() == 0 {
        Seq::empty()
    } else {
        let rest = configured_keys(ds.drop_last());
        match first_keys(ds.last().embedding_primary_keys@) {
            Some(keys) => rest.push((ds.last().name@, keys)),
            None => rest,
        }
    }
}

/// The primary keys that the datasets configure for their embeddings.
pub fn compute_primary_keys(datasets: &Vec<DatasetEmbeddings>) -> (r: Vec<(String, Vec<String>)>)
    ensures
        pairs_view(r@) == configured_keys(datasets@),
{
    let mut out: Vec<(String, Vec<String>)> = Vec::new();
    let mut i: usize = 0;
    while i < datasets.len()
        invariant
            i <= datasets@.len(),
            pairs_view(out@) == configured_keys(datasets@.take(i as int)),
        decreases datasets@.len() - i,
    {
        let d = &datasets[i];
        assert(datasets@.take(i + 1).drop_last() =~= datasets@.take(i as int));
        assert(datasets@.take(i + 1).last() == datasets@[i as int]);
        match first_embedding_keys(&d.embedding_primary_keys) {
            Some(keys) => {
                out.push((d.name.clone(), clone_strings(keys)));
                assert(pairs_view(out@) =~= configured_keys(datasets@.take(i + 1)));
            },
            None => {},
        }
        i = i + 1;
    }
    assert(datasets@.take(i as int) =~= datasets@);
    out
}

/// Items joined with ", ".
pub open spec fn join_comma(items: Seq<Seq<char>>) -> Seq<char>
    decreases items.len(),
{
    if items.len() == 0 {
        Seq::empty()
    } else if items.len() == 1 {
        items[0]
    } else {
        join_comma(items.drop_last()) + seq![',', ' '] + items.last()
    }
}

/// The nearest-neighbour query over one table: its keys and embedding
/// column, ordered by distance of the column's vector to the query's.
pub open spec fn search_query(table: Seq<char>, keys: Seq<Seq<char>>, column: Seq<char>, vector: Seq<char>, n: nat) -> Seq<char> {
    "SELECT "@ + join_comma(keys.push(column)) + " FROM "@ + table + " ORDER BY array_distance("@ + column
        + "_embedding, "@ + vector + ") LIMIT "@ + decimal(n)
}

fn push_joined(out: &mut String, items: &Vec<String>, last: &str)
    ensures
        final(out)@ == old(out)@ + join_comma(views(items@).push(last@)),
{
    let ghost start = old(out)@;
    let ghost all = views(items@).push(last@);
    proof { reveal_strlit(", "); }
    let mut i: usize = 0;
    while i < items.len()
        invariant
            i <= items@.len(),
            all == views(items@).push(last@),
            out@ == start + join_comma(all.take(i as int)),
        decreases items@.len() - i,
    {
        assert(all.take(i + 1).drop_last() =~= all.take(i as int));
        assert(all.take(i + 1).last() == items@[i as int]@);
        proof { reveal_strlit(", "); }
        assert(", "@ =~= seq![',', ' ']);
        if i > 0 {
            out.append(", ");
        }
        out.append(items[i].as_str());
        assert(out@ =~= start + join_comma(all.take(i + 1)));
        i = i + 1;
    }
    assert(all.take(i + 1).drop_last() =~= all.take(i as int));
    assert(all.take(i + 1) =~= all);
    proof { reveal_strlit(", "); }
    assert(", "@ =~= seq![',', ' ']);
    if i > 0 {
        out.append(", ");
    }
    out.append(last);
    assert(out@ =~= start + join_comma(all));
}

/// Builds the nearest-neighbour query for one table. `vector` is the query's
/// embedding, already written as an array literal.
pub fn search_sql(table: &str, keys: &Vec<String>, column: &str, vector: &str, n: usize) -> (r: String)
    ensures
        r@ == search_query(table@, views(keys@), column@, vector@, n as nat),
{
    let mut out = String::new();
    out.append("SELECT ");
    push_joined(&mut out, keys, column);
    out.append(" FROM ");
    out.append(table);
    out.append(" ORDER BY array_distance(");
    out.append(column);
    out.append("_embedding, ");
    out.append(vector);
    out.append(") LIMIT ");
    push_decimal(&mut out, n as u128);
    assert(out@ =~= search_query(table@, views(keys@), column@, vector@, n as nat));
    out
}

/// The embedding column a table is searched by: the first of its embedding
/// columns, which must be matched by exactly one query vector.
pub fn select_embedding_column(table: &String, embedding_columns: &Vec<String>, num_vectors: usize) -> (r: Result<String, Error>)
    ensures
        embedding_columns@.len() == 0 ==> (r matches Err(Error::NoEmbeddingColumns { data_source })
            && data_source@ == table@),
        embedding_columns@.len() > 0 && num_vectors != 1 ==> (r matches Err(
            Error::IncorrectNumberOfEmbeddingColumns { data_source, num_embeddings },
        ) && num_embeddings == num_vectors && data_source@ == table@),
        r is Ok <==> embedding_columns@.len() > 0 && num_vectors == 1,
        r matches Ok(c) ==> c@ == embedding_columns@[0]@,
{
    if embedding_columns.len() == 0 {
        return Err(Error::NoEmbeddingColumns { data_source: table.clone() });
    }
    if num_vectors != 1 {
        return Err(Error::IncorrectNumberOfEmbeddingColumns { data_source: table.clone(), num_embeddings: num_vectors });
    }
    Ok(embedding_columns[0].clone())
}

/// Whether `v` holds `x`.
pub open spec fn holds(v: Seq<Seq<char>>, x: Seq<char>) -> bool {
    exists|i: int| 0 <= i < v.len() && v[i] == x
}

fn contains_string(v: &Vec<String>, x: &String) -> (r: bool)
    ensures
        r == holds(views(v@), x@),
{
    let mut i: usize = 0;
    while i < v.len()
        invariant
            i <= v@.len(),
            forall|k: int| 0 <= k < i ==> v@[k]@ != x@,
        decreases v@.len() - i,
    {
        if v[i] == *x {
            assert(views(v@)[i as int] == x@);
            return true;
        }
        i = i + 1;
    }
    proof {
        if holds(views(v@), x@) {
            let k = choose|k: int| 0 <= k < views(v@).len() && views(v@)[k] == x@;
            assert(v@[k]@ == x@);
        }
    }
    false
}

/// All model names the tables use, table by table.
pub open spec fn all_models(per_table: Seq<Vec<String>>) -> Seq<Seq<char>>
    decreases per_table.len(),
{
    if per_table.len() == 0 {
        Seq::empty()
    } else {
        all_models(per_table.drop_last()) + views(per_table.last()@)
    }
}

proof fn lemma_holds_push(s: Seq<Seq<char>>, y: Seq<char>, x: Seq<char>)
    ensures
        holds(s.push(y), x) <==> holds(s, x) || x == y,
{
    if holds(s, x) {
        let k = choose|k: int| 0 <= k < s.len() && s[k] == x;
        assert(s.push(y)[k] == x);
    }
    if x == y {
        assert(s.push(y)[s.len() as int] == x);
    }
    if holds(s.push(y), x) {
        let k = choose|k: int| 0 <= k < s.push(y).len() && s.push(y)[k] == x;
        if k < s.len() {
            assert(s[k] == x);
        }
    }
}

/// The embedding models to run for a query: each model that some table uses,
/// exactly once.
pub fn models_to_embed(models_per_table: &Vec<Vec<String>>) -> (r: Vec<String>)
    ensures
        forall|i: int, j: int| 0 <= i < j < r@.len() ==> r@[i]@ != r@[j]@,
        forall|x: Seq<char>| holds(views(r@), x) <==> #[trigger] holds(all_models(models_per_table@), x),
{
    let mut flat: Vec<String> = Vec::new();
    let mut t: usize = 0;
    while t < models_per_table.len()
        invariant
            t <= models_per_table@.len(),
            views(flat@) == all_models(models_per_table@.take(t as int)),
        decreases models_per_table@.len() - t,
    {
        assert(models_per_table@.take(t + 1).drop_last() =~= models_per_table@.take(t as int));
        let models = &models_per_table[t];
        let ghost before = views(flat@);
        let mut m: usize = 0;
        while m < models.len()
            invariant
                *models == models_per_table@[t as int],
                m <= models@.len(),
                views(flat@) == before + views(models@).take(m as int),
            decreases models@.len() - m,
        {
            let ghost prev = views(flat@);
            flat.push(models[m].clone());
            assert(views(flat@) =~= prev.push(models@[m as int]@));
            assert(views(models@).take(m + 1) =~= views(models@).take(m as int).push(models@[m as int]@));
            assert(views(flat@) =~= before + views(models@).take(m + 1));
            m = m + 1;
        }
        assert(views(models@).take(m as int) =~= views(models@));
        t = t + 1;
    }
    assert(models_per_table@.take(t as int) =~= models_per_table@);
    let ghost all = views(flat@);
    let mut out: Vec<String> = Vec::new();
    let mut i: usize = 0;
    while i < flat.len()
        invariant
            all == views(flat@),
            i <= flat@.len(),
            forall|a: int, b: int| 0 <= a < b < out@.len() ==> out@[a]@ != out@[b]@,
            forall|x: Seq<char>| holds(views(out@), x) <==> #[trigger] holds(all.take(i as int), x),
        decreases flat@.len() - i,
    {
        let ghost before = views(out@);
        assert(all.take(i + 1) =~= all.take(i as int).push(flat@[i as int]@));
        if !contains_string(&out, &flat[i]) {
            out.push(flat[i].clone());
            assert(views(out@) =~= before.push(flat@[i as int]@));
            assert forall|a: int, b: int| 0 <= a < b < out@.len() implies out@[a]@ != out@[b]@ by {
                if b == out@.len() - 1 {
                    assert(before[a] == out@[a]@);
                }
            }
        }
        assert forall|x: Seq<char>| holds(views(out@), x) <==> #[trigger] holds(all.take(i + 1), x) by {
            lemma_holds_push(all.take(i as int), flat@[i as int]@, x);
            lemma_holds_push(before, flat@[i as int]@, x);
        }
        i = i + 1;
    }
    assert(all.take(i as int) =~= all);
    out
}

/// The entry of a retrieved row: its text, empty for null.
pub open spec fn entry_text(v: Option<Scalar>) -> Seq<char> {
    match v {
        Some(Scalar::Utf8(s)) => s@,
        _ => Seq::empty(),
    }
}

/// A null, or a text value.
pub open spec fn is_text_entry(v: Option<Scalar>) -> bool {
    match v {
        None => true,
        Some(Scalar::Utf8(_)) => true,
        _ => false,
    }
}

/// The batch has columns, and its last one holds text (or null).
pub open spec fn batch_text_ok(batch: RecordBatch) -> bool {
    batch.columns@.len() > 0 && forall|k: int|
        0 <= k < batch.columns@.last()@.len() ==> #[trigger] is_text_entry(batch.columns@.last()@[k])
}

/// The last column of each batch holds text (or null).
pub open spec fn last_column_text(batches: Seq<RecordBatch>) -> bool {
    forall|b: int| 0 <= b < batches.len() ==> #[trigger] batch_text_ok(batches[b])
}

/// The entries of the retrieved rows, batch after batch.
pub open spec fn entries_of(batches: Seq<RecordBatch>) -> Seq<Seq<char>>
    decreases batches.len(),
{
    if batches.len() == 0 {
        Seq::empty()
    } else {
        entries_of(batches.drop_last()) + Seq::new(
            batches.last().columns@.last()@.len(),
            |k: int| entry_text(batches.last().columns@.last()@[k]),
        )
    }
}

/// The error text for a search whose last column is not the embedding
/// column's text.
pub open spec fn not_text_message(column: Seq<char>) -> Seq<char> {
    "Expected '"@ + column + "' to be last column of SQL query and return a String type"@
}

fn not_text_error(column: &str) -> (r: Error)
    ensures
        r matches Error::DataFusionError { message } && message@ == not_text_message(column@),
{
    let mut message = String::from_str("Expected '");
    message.append(column);
    message.append("' to be last column of SQL query and return a String type");
    Error::DataFusionError { message }
}

/// The retrieved entries: the values of the last column of every batch, which
/// must hold the embedding column's text; a null entry reads as empty.
pub fn retrieved_entries(batches: &Vec<RecordBatch>, embedding_column: &str) -> (r: Result<Vec<String>, Error>)
    ensures
        r is Ok <==> last_column_text(batches@),
        r matches Err(e) ==> (e matches Error::DataFusionError { message } && message@ == not_text_message(
            embedding_column@,
        )),
        r matches Ok(v) ==> views(v@) == entries_of(batches@),
{
    let mut out: Vec<String> = Vec::new();
    let mut b: usize = 0;
    while b < batches.len()
        invariant
            b <= batches@.len(),
            last_column_text(batches@.take(b as int)),
            views(out@) == entries_of(batches@.take(b as int)),
        decreases batches@.len() - b,
    {
        let batch = &batches[b];
        assert(batches@.take(b + 1).drop_last() =~= batches@.take(b as int));
        assert(batches@.take(b + 1).last() == batches@[b as int]);
        if batch.columns.len() == 0 {
            assert(!batch_text_ok(batches@[b as int]));
            return Err(not_text_error(embedding_column));
        }
        let col = &batch.columns[batch.columns.len() - 1];
        let ghost before = views(out@);
        let mut k: usize = 0;
        while k < col.len()
            invariant
                b < batches@.len(),
                batches@[b as int].columns@.len() > 0,
                k <= col@.len(),
                *col == batches@[b as int].columns@.last(),
                forall|j: int| 0 <= j < k ==> #[trigger] is_text_entry(col@[j]),
                views(out@) == before + Seq::new(k as nat, |j: int| entry_text(col@[j])),
            decreases col@.len() - k,
        {
            let ghost prev = views(out@);
            match &col[k] {
                None => {
                    out.push(String::new());
                    assert(views(out@) =~= prev.push(entry_text(col@[k as int])));
                },
                Some(Scalar::Utf8(s)) => {
                    out.push(s.clone());
                    assert(views(out@) =~= prev.push(entry_text(col@[k as int])));
                },
                Some(_) => {
                    assert(!is_text_entry(batches@[b as int].columns@.last()@[k as int]));
                    assert(!batch_text_ok(batches@[b as int]));
                    return Err(not_text_error(embedding_column));
                },
            }
            assert(views(out@) =~= before + Seq::new((k + 1) as nat, |j: int| entry_text(col@[j])));
            k = k + 1;
        }
        assert(views(out@) =~= entries_of(batches@.take(b + 1)));
        assert(batch_text_ok(batches@[b as int]));
        assert(last_column_text(batches@.take(b + 1))) by {
            assert forall|bb: int| 0 <= bb < b + 1 implies #[trigger] batch_text_ok(batches@.take(b + 1)[bb]) by {
                if bb < b {
                    assert(batches@.take(b + 1)[bb] == batches@.take(b as int)[bb]);
                }
            }
        }
        b = b + 1;
    }
    assert(batches@.take(b as int) =~= batches@);
    Ok(out)
}

/// What a search retrieved, per table: the entries of the embedding column,
/// and the batches with the keys.
#[derive(Debug)]
pub struct VectorSearchResult {
    pub retrieved_entries: Vec<(String, Vec<String>)>,
    pub retrieved_public_keys: Vec<(String, Vec<RecordBatch>)>,
}

/// Runs nearest-neighbour searches over tables with one embedding column,
/// with primary keys configured for tables whose schema names none.
#[derive(Debug)]
pub struct VectorSearch {
    pub explicit_primary_keys: Vec<(String, Vec<String>)>,
}

impl VectorSearch {
    /// Each table has at most one entry of configured keys.
    pub open spec fn wf(&self) -> bool {
        keys_unique(self.explicit_primary_keys@)
    }

    pub fn new(explicit_primary_keys: Vec<(String, Vec<String>)>) -> (r: VectorSearch)
        requires
            keys_unique(explicit_primary_keys@),
        ensures
            r.explicit_primary_keys == explicit_primary_keys,
            r.wf(),
    {
        VectorSearch { explicit_primary_keys }
    }

    /// The query that searches one table: by its first embedding column,
    /// which one query vector must match, selecting the table's keys (its
    /// own primary keys, else the configured ones, else none), nearest first,
    /// up to the limit.
    pub fn table_query(
        &self,
        table: &String,
        own_keys: &Vec<String>,
        embedding_columns: &Vec<String>,
        num_vectors: usize,
        vector: &str,
        limit: &RetrievalLimit,
    ) -> (r: Result<String, Error>)
        requires
            self.wf(),
        ensures
            r is Ok <==> (*limit is TopN && embedding_columns@.len() > 0 && num_vectors == 1),
            r matches Ok(q) ==> q@ == search_query(
                table@,
                match keys_with_override(views(own_keys@), explicit_keys(self.explicit_primary_keys@, table@)) {
                    Some(k) => k,
                    None => Seq::empty(),
                },
                embedding_columns@[0]@,
                vector@,
                limit->TopN_0 as nat,
            ),
    {
        let n = retrieval_count(limit)?;
        let column = select_embedding_column(table, embedding_columns, num_vectors)?;
        let keys = if own_keys.len() > 0 {
            clone_strings(own_keys)
        } else {
            match find_explicit(&self.explicit_primary_keys, table) {
                Some(k) => clone_strings(k),
                None => Vec::new(),
            }
        };
        assert(views(keys@) == match keys_with_override(views(own_keys@), explicit_keys(self.explicit_primary_keys@, table@)) {
            Some(k) => k,
            None => Seq::<Seq<char>>::empty(),
        }) by {
            if own_keys@.len() == 0 && explicit_keys(self.explicit_primary_keys@, table@) is None {
                assert(views(keys@) =~= Seq::<Seq<char>>::empty());
            }
        }
        Ok(search_sql(table.as_str(), &keys, column.as_str(), vector, n))
    }
}

} // verus!
