use crate::columnar::{Column, DataType, Field, RecordBatch, Scalar, TimeUnit};
use vstd::prelude::*;
use vstd::string::*;

verus! {

/// Why a Snowflake batch could not be brought to standard types.
#[derive(Debug)]
pub enum Error {
    /// A TIMESTAMP_NTZ column is not the struct of epoch seconds and fraction
    /// nanoseconds that Snowflake sends.
    UnableToCastSnowflakeTimestamp { reason: String },
    /// A timestamp does not fit 64-bit milliseconds.
    TimestampOutOfRange { index: usize },
    /// The batch has a different number of columns than fields.
    FailedToCreateRecordBatch,
    /// The schema probe did not answer with a batch whose types cast.
    UnableToGetSchema { reason: String },
}

/// What the Snowflake client answers to a query.
#[derive(Debug)]
pub enum QueryResult {
    Arrow(Vec<RecordBatch>),
    Json(String),
    Empty,
}

/// `a / d` rounded toward zero, as Rust's integer division does.
pub open spec fn trunc_div(a: int, d: int) -> int {
    if a >= 0 {
        a / d
    } else {
        -((-a) / d)
    }
}

/// The milliseconds of a TIMESTAMP_NTZ given as epoch seconds and a fraction in nanoseconds.
pub open spec fn ntz_millis(epoch: i64, fraction: i32) -> int {
    epoch * 1000 + trunc_div(fraction as int, 1_000_000)
}

pub open spec fn fits_i64(v: int) -> bool {
    i64::MIN <= v <= i64::MAX
}

/// The type of a TIMESTAMP_NTZ column: a struct whose first two fields are
/// the 64-bit epoch and the 32-bit fraction.
pub open spec fn is_ntz_struct(d: DataType) -> bool {
    d matches DataType::Struct(fs) && fs@.len() >= 2 && fs@[0].data_type is Int64 && fs@[1].data_type is Int32
}

/// The epoch and fraction of a non-null TIMESTAMP_NTZ value.
pub open spec fn ntz_parts(v: Scalar) -> Option<(i64, i32)> {
    match v {
        Scalar::Struct(vs) => if vs@.len() >= 2 {
            match (vs@[0], vs@[1]) {
                (Some(Scalar::Int64(e)), Some(Scalar::Int32(f))) => Some((e, f)),
                _ => None,
            }
        } else {
            None
        },
        _ => None,
    }
}

/// The entry is null, or a struct whose timestamp fits 64-bit milliseconds.
pub open spec fn ntz_entry_ok(v: Option<Scalar>) -> bool {
    match v {
        None => true,
        Some(x) => ntz_parts(x) matches Some((e, f)) && fits_i64(ntz_millis(e, f)),
    }
}

/// A non-null entry that is not a struct of a 64-bit epoch and a 32-bit fraction.
pub open spec fn ntz_entry_malformed(v: Option<Scalar>) -> bool {
    v matches Some(x) && ntz_parts(x) is None
}

/// The timestamp entry for a TIMESTAMP_NTZ entry: null stays null.
pub open spec fn ntz_entry(v: Option<Scalar>) -> Option<Scalar> {
    match v {
        None => None,
        Some(x) => match ntz_parts(x) {
            Some((e, f)) => Some(Scalar::Timestamp(ntz_millis(e, f) as i64)),
            None => None,
        },
    }
}

fn reason(s: &str) -> (r: Error)
    ensures
        r is UnableToCastSnowflakeTimestamp,
{
    Error::UnableToCastSnowflakeTimestamp { reason: String::from_str(s) }
}

/// Turns a TIMESTAMP_NTZ column (a struct of epoch seconds and fraction
/// nanoseconds) into milliseconds since the epoch: `epoch * 1000 + fraction /
/// 1_000_000`. A null entry stays null.
pub fn cast_sf_timestamp_ntz_to_arrow_timestamp(column: &Column, data_type: &DataType) -> (r: Result<Column, Error>)
    ensures
        r is Ok <==> is_ntz_struct(*data_type) && forall|i: int| 0 <= i < column@.len() ==> #[trigger] ntz_entry_ok(column@[i]),
        r matches Ok(out) ==> out@.len() == column@.len() && forall|i: int|
            0 <= i < column@.len() ==> #[trigger] out@[i] == ntz_entry(column@[i]),
        r matches Ok(out) ==> forall|i: int| 0 <= i < column@.len() ==> (#[trigger] out@[i] is None <==> column@[i] is None),
        !is_ntz_struct(*data_type) ==> r matches Err(Error::UnableToCastSnowflakeTimestamp { .. }),
        r matches Err(Error::UnableToCastSnowflakeTimestamp { .. }) ==> !is_ntz_struct(*data_type) || exists|i: int|
            0 <= i < column@.len() && #[trigger] ntz_entry_malformed(column@[i]),
        r matches Err(Error::TimestampOutOfRange { index }) ==> index < column@.len() && ntz_parts(column@[index as int]->0) is Some
            && !ntz_entry_ok(column@[index as int]),
        !(r matches Err(Error::FailedToCreateRecordBatch)),
{
    let fields = match data_type {
        DataType::Struct(fs) => fs,
        _ => {
            return Err(reason("value is not a struct"));
        },
    };
    if fields.len() < 2 {
        return Err(reason("value is not a struct with 2 columns"));
    }
    if !matches!(fields[0].data_type, DataType::Int64) {
        return Err(reason("epoch is missing"));
    }
    if !matches!(fields[1].data_type, DataType::Int32) {
        return Err(reason("fraction is missing"));
    }
    let mut out: Column = Vec::new();
    let mut i: usize = 0;
    while i < column.len()
        invariant
            is_ntz_struct(*data_type),
            i <= column@.len(),
            out@.len() == i,
            forall|k: int| 0 <= k < i ==> #[trigger] ntz_entry_ok(column@[k]),
            forall|k: int| 0 <= k < i ==> #[trigger] out@[k] == ntz_entry(column@[k]),
        decreases column@.len() - i,
    {
        match &column[i] {
            None => {
                out.push(None);
            },
            Some(v) => {
                let (epoch, fraction): (i64, i32) = match v {
                    Scalar::Struct(vs) => {
                        if vs.len() < 2 {
                            assert(!ntz_entry_ok(column@[i as int]));
                            assert(ntz_entry_malformed(column@[i as int]));
                            return Err(reason("value is not a struct with 2 columns"));
                        }
                        let e = match &vs[0] {
                            Some(Scalar::Int64(e)) => *e,
                            _ => {
                                assert(!ntz_entry_ok(column@[i as int]));
                                assert(ntz_entry_malformed(column@[i as int]));
                                return Err(reason("epoch is missing"));
                            },
                        };
                        let f = match &vs[1] {
                            Some(Scalar::Int32(f)) => *f,
                            _ => {
                                assert(!ntz_entry_ok(column@[i as int]));
                                assert(ntz_entry_malformed(column@[i as int]));
                                return Err(reason("fraction is missing"));
                            },
                        };
                        (e, f)
                    },
                    _ => {
                        assert(!ntz_entry_ok(column@[i as int]));
                        assert(ntz_entry_malformed(column@[i as int]));
                        return Err(reason("value is not a struct"));
                    },
                };
                let frac_ms: i64 = fraction as i64 / 1_000_000;
                assert(frac_ms == trunc_div(fraction as int, 1_000_000));
                let ms: i128 = epoch as i128 * 1000 + frac_ms as i128;
                if ms < i64::MIN as i128 || ms > i64::MAX as i128 {
                    assert(!ntz_entry_ok(column@[i as int]));
                    return Err(Error::TimestampOutOfRange { index: i });
                }
                out.push(Some(Scalar::Timestamp(ms as i64)));
            },
        }
        i = i + 1;
    }
    assert forall|k: int| 0 <= k < column@.len() implies (#[trigger] out@[k] is None <==> column@[k] is None) by {
        assert(ntz_entry_ok(column@[k]));
    }
    Ok(out)
}

/// What `str::to_lowercase` gives for a string.
pub uninterp spec fn lower_of(s: Seq<char>) -> Seq<char>;

/// Relies on `str::to_lowercase`: the result depends on the characters alone.
#[verifier::external_body]
fn lowercase(s: &str) -> (r: String)
    ensures
        r@ == lower_of(s@),
{
    s.to_lowercase()
}

pub open spec fn logical_type_key() -> Seq<char> {
    seq!['l', 'o', 'g', 'i', 'c', 'a', 'l', 'T', 'y', 'p', 'e']
}

pub open spec fn ntz_name() -> Seq<char> {
    seq!['t', 'i', 'm', 'e', 's', 't', 'a', 'm', 'p', '_', 'n', 't', 'z']
}

/// The value of the first `logicalType` entry of a field's metadata.
pub open spec fn logical_type(md: Seq<(String, String)>) -> Option<Seq<char>>
    decreases md.len(),
{
    if md.len() == 0 {
        None
    } else if md[0].0@ == logical_type_key() {
        Some(md[0].1@)
    } else {
        logical_type(md.skip(1))
    }
}

/// The field is tagged as a Snowflake TIMESTAMP_NTZ, in any letter case.
pub open spec fn is_ntz_field(f: Field) -> bool {
    logical_type(f.metadata@) matches Some(v) && lower_of(v) == ntz_name()
}

/// Whether a lower-cased logical type names TIMESTAMP_NTZ.
pub fn is_timestamp_ntz_name(lowered: &String) -> (r: bool)
    ensures
        r == (lowered@ == ntz_name()),
{
    proof { reveal_strlit("timestamp_ntz"); }
    let name = String::from_str("timestamp_ntz");
    assert(name@ =~= ntz_name());
    *lowered == name
}

fn logical_type_of(md: &Vec<(String, String)>) -> (r: Option<&String>)
    ensures
        r matches Some(v) ==> logical_type(md@) == Some(v@),
        r is None ==> logical_type(md@) is None,
{
    proof { reveal_strlit("logicalType"); }
    let key = String::from_str("logicalType");
    assert(key@ =~= logical_type_key());
    let mut k: usize = 0;
    assert(md@.skip(0) =~= md@);
    while k < md.len()
        invariant
            key@ == logical_type_key(),
            k <= md@.len(),
            logical_type(md@) == logical_type(md@.skip(k as int)),
        decreases md@.len() - k,
    {
        assert(md@.skip(k as int).skip(1) =~= md@.skip(k + 1));
        assert(md@.skip(k as int)[0] == md@[k as int]);
        if md[k].0 == key {
            return Some(&md[k].1);
        }
        k = k + 1;
    }
    None
}

fn field_is_ntz(f: &Field) -> (r: bool)
    ensures
        r == is_ntz_field(*f),
{
    match logical_type_of(&f.metadata) {
        Some(v) => {
            let lowered = lowercase(v.as_str());
            is_timestamp_ntz_name(&lowered)
        },
        None => false,
    }
}

/// A TIMESTAMP_NTZ field whose column casts.
pub open spec fn ntz_column_ok(f: Field, c: Column) -> bool {
    is_ntz_struct(f.data_type) && forall|k: int| 0 <= k < c@.len() ==> #[trigger] ntz_entry_ok(c@[k])
}

/// `(g, d)` is what the field `f` with column `c` becomes: a TIMESTAMP_NTZ
/// field turns into a millisecond timestamp field of the same name and
/// nullability; any other field and its column pass through unchanged.
pub open spec fn field_cast(f: Field, c: Column, g: Field, d: Column) -> bool {
    if is_ntz_field(f) {
        &&& g.name@ == f.name@
        &&& g.data_type matches DataType::Timestamp(TimeUnit::Millisecond, None)
        &&& g.nullable == f.nullable
        &&& g.metadata@.len() == 0
        &&& d@.len() == c@.len()
        &&& forall|k: int| 0 <= k < c@.len() ==> #[trigger] d@[k] == ntz_entry(c@[k])
    } else {
        g == f && d == c
    }
}

/// Every TIMESTAMP_NTZ column of the batch casts, and it has one column per field.
pub open spec fn batch_castable(batch: RecordBatch) -> bool {
    batch.columns@.len() == batch.schema@.len() && forall|i: int|
        0 <= i < batch.schema@.len() ==> is_ntz_field(#[trigger] batch.schema@[i]) ==> ntz_column_ok(
            batch.schema@[i],
            batch.columns@[i],
        )
}

/// Brings the Snowflake-specific types of a batch to standard ones: each
/// TIMESTAMP_NTZ column becomes a millisecond timestamp column; the others
/// pass through.
pub fn snowflake_schema_cast(batch: RecordBatch) -> (r: Result<RecordBatch, Error>)
    ensures
        r is Ok <==> batch_castable(batch),
        batch.columns@.len() != batch.schema@.len() ==> r matches Err(Error::FailedToCreateRecordBatch),
        r matches Ok(out) ==> {
            &&& out.row_count == batch.row_count
            &&& out.schema@.len() == batch.schema@.len()
            &&& out.columns@.len() == batch.columns@.len()
            &&& forall|i: int|
                0 <= i < batch.schema@.len() ==> #[trigger] field_cast(
                    batch.schema@[i],
                    batch.columns@[i],
                    out.schema@[i],
                    out.columns@[i],
                )
        },
{
    let RecordBatch { mut schema, mut columns, row_count } = batch;
    if schema.len() != columns.len() {
        return Err(Error::FailedToCreateRecordBatch);
    }
    let ghost fields0 = schema@;
    let ghost columns0 = columns@;
    let n = schema.len();
    let mut out_schema: Vec<Field> = Vec::new();
    let mut out_columns: Vec<Column> = Vec::new();
    let mut i: usize = 0;
    while i < n
        invariant
            fields0 == batch.schema@,
            columns0 == batch.columns@,
            n == fields0.len(),
            fields0.len() == columns0.len(),
            i <= n,
            schema@ == fields0.skip(i as int),
            columns@ == columns0.skip(i as int),
            out_schema@.len() == i,
            out_columns@.len() == i,
            forall|k: int| 0 <= k < i ==> is_ntz_field(#[trigger] fields0[k]) ==> ntz_column_ok(fields0[k], columns0[k]),
            forall|k: int| 0 <= k < i ==> #[trigger] field_cast(fields0[k], columns0[k], out_schema@[k], out_columns@[k]),
        decreases n - i,
    {
        let f = schema.remove(0);
        let c = columns.remove(0);
        assert(f == fields0[i as int]);
        assert(c == columns0[i as int]);
        assert(schema@ =~= fields0.skip(i + 1));
        assert(columns@ =~= columns0.skip(i + 1));
        if field_is_ntz(&f) {
            let cast = match cast_sf_timestamp_ntz_to_arrow_timestamp(&c, &f.data_type) {
                Ok(cast) => cast,
                Err(e) => {
                    assert(is_ntz_field(batch.schema@[i as int]) && !ntz_column_ok(batch.schema@[i as int], batch.columns@[i as int]));
                    return Err(e);
                },
            };
            let g = Field::new(f.name, DataType::Timestamp(TimeUnit::Millisecond, None), f.nullable);
            out_schema.push(g);
            out_columns.push(cast);
        } else {
            out_schema.push(f);
            out_columns.push(c);
        }
        i = i + 1;
    }
    Ok(RecordBatch { schema: out_schema, columns: out_columns, row_count })
}

/// The query that fetches one row of a table (already quoted), to learn its schema.
pub fn schema_probe_sql(table: &str) -> (r: String)
    ensures
        r@ == "SELECT * FROM "@ + table@ + " limit 1"@,
{
    let mut out = String::from_str("SELECT * FROM ");
    out.append(table);
    out.append(" limit 1");
    out
}

/// The first batch of an Arrow answer.
pub open spec fn first_batch(res: QueryResult) -> Option<RecordBatch> {
    match res {
        QueryResult::Arrow(bs) => if bs@.len() > 0 {
            Some(bs@[0])
        } else {
            None
        },
        _ => None,
    }
}

/// `g` is the field `f` becomes when its batch is cast.
pub open spec fn field_schema_cast(f: Field, g: Field) -> bool {
    if is_ntz_field(f) {
        &&& g.name@ == f.name@
        &&& g.data_type matches DataType::Timestamp(TimeUnit::Millisecond, None)
        &&& g.nullable == f.nullable
        &&& g.metadata@.len() == 0
    } else {
        g == f
    }
}

/// The schema of a table from the answer to its probe: that of the first
/// batch, once cast. An answer without a batch (empty or JSON), or whose
/// first batch does not cast, is `UnableToGetSchema`.
pub fn schema_from_response(res: QueryResult) -> (r: Result<Vec<Field>, Error>)
    ensures
        r is Ok <==> (first_batch(res) matches Some(b) && batch_castable(b)),
        r is Err ==> r matches Err(Error::UnableToGetSchema { .. }),
        r matches Ok(fs) ==> (first_batch(res) matches Some(b) && fs@.len() == b.schema@.len() && forall|i: int|
            0 <= i < fs@.len() ==> #[trigger] field_schema_cast(b.schema@[i], fs@[i])),
{
    match res {
        QueryResult::Arrow(mut bs) => {
            if bs.len() == 0 {
                return Err(Error::UnableToGetSchema { reason: String::from_str("Empty response") });
            }
            let ghost b0 = bs@[0];
            let first = bs.remove(0);
            assert(first == b0);
            match snowflake_schema_cast(first) {
                Ok(cast) => {
                    assert forall|i: int| 0 <= i < cast.schema@.len() implies #[trigger] field_schema_cast(b0.schema@[i], cast.schema@[i]) by {
                        assert(field_cast(b0.schema@[i], b0.columns@[i], cast.schema@[i], cast.columns@[i]));
                    }
                    Ok(cast.schema)
                },
                Err(_) => Err(Error::UnableToGetSchema { reason: String::from_str("Unable to cast the first batch") }),
            }
        },
        QueryResult::Empty => Err(Error::UnableToGetSchema { reason: String::from_str("Empty response") }),
        QueryResult::Json(_) => Err(Error::UnableToGetSchema { reason: String::from_str("Unexpected response") }),
    }
}

} // verus!
