use crate::columnar::{Column, DataType, Field, RecordBatch, Scalar};
use crate::numeric::{fits_i128, lemma_pow10_add, numeric_decode, pow10, signed_value, PgNumeric};
use crate::pg_text::{trim_bpchar, trim_trailing_spaces, uuid_text, uuid_to_string};
use crate::pg_types::{
    array_element, is_mappable, is_simple_mappable, map_column_type_to_data_type, type_matches, PgCell, PgRow,
    PgType,
};
use vstd::prelude::*;

verus! {

/// Why a set of rows could not become a record batch.
#[derive(Debug)]
pub enum Error {
    /// The cell is missing, or the driver cannot read it as the column's type.
    FailedToGetRowValue { row: usize, column: usize },
    /// A field of a composite value cannot be read as the field's type.
    FailedToGetCompositeRowValue { row: usize, column: usize },
    /// A NUMERIC cell is not well-formed.
    FailedToParseBigDecimalFromPostgres { bytes: Vec<u8> },
    /// A NUMERIC value does not fit a 128-bit decimal at the column's scale.
    FailedToConvertBigDecimalToI128 { row: usize, column: usize },
    /// A timestamp is too far in the future for 64-bit milliseconds.
    FailedToConvertU128toI64 { row: usize, column: usize },
    /// A column would have fewer values than there are rows (a timestamp
    /// before the epoch leaves no value).
    FailedToBuildRecordBatch { column: usize },
}

/// `v` is what the driver reads from the non-null cell `c` of the scalar type `t`.
pub open spec fn scalar_cell(t: PgType, c: PgCell, v: Scalar) -> bool {
    match t {
        PgType::Int2 => c matches PgCell::Int2(x) && v == Scalar::Int16(x),
        PgType::Int4 => c matches PgCell::Int4(x) && v == Scalar::Int32(x),
        PgType::Int8 => c matches PgCell::Int8(x) && v == Scalar::Int64(x),
        PgType::Float4 => c matches PgCell::Float4(x) && v == Scalar::Float32(x),
        PgType::Float8 => c matches PgCell::Float8(x) && v == Scalar::Float64(x),
        PgType::Bool => c matches PgCell::Bool(x) && v == Scalar::Boolean(x),
        PgType::Text | PgType::Varchar | PgType::Bpchar => c matches PgCell::Text(s) && v matches Scalar::Utf8(o) && o@ == s@,
        _ => false,
    }
}

/// The driver can read the non-null cell `c` as the scalar type `t`.
pub open spec fn scalar_accepts(t: PgType, c: PgCell) -> bool {
    match t {
        PgType::Int2 => c is Int2,
        PgType::Int4 => c is Int4,
        PgType::Int8 => c is Int8,
        PgType::Float4 => c is Float4,
        PgType::Float8 => c is Float8,
        PgType::Bool => c is Bool,
        PgType::Text | PgType::Varchar | PgType::Bpchar => c is Text,
        _ => false,
    }
}

/// An array element: never null, read as the element type.
pub open spec fn element_value(e: PgType, c: PgCell, v: Option<Scalar>) -> bool {
    v matches Some(x) && scalar_cell(e, c, x)
}

/// Whole milliseconds in `ns` nanoseconds.
pub open spec fn millis_of(ns: int) -> int {
    ns / 1_000_000
}

/// `v` is the value decoded from the non-null cell `c` of the type `t`,
/// which is not a composite.
pub open spec fn simple_cell_value(t: PgType, c: PgCell, v: Scalar) -> bool {
    match t {
        PgType::Bpchar => c matches PgCell::Text(s) && v matches Scalar::Utf8(o) && o@ == trim_trailing_spaces(s@),
        PgType::Uuid => c matches PgCell::Uuid(b) && v matches Scalar::Utf8(o) && o@ == uuid_text(b@),
        PgType::Timestamp | PgType::Timestamptz => c matches PgCell::Timestamp(ns) && v == Scalar::Timestamp(millis_of(ns as int) as i64),
        PgType::Date => c matches PgCell::Date(d) && v == Scalar::Date32(d),
        _ => match array_element(t) {
            Some(e) => c matches PgCell::Array(es) && v matches Scalar::List(vs) && vs@.len() == es@.len()
                && forall|i: int| 0 <= i < es@.len() ==> #[trigger] element_value(e, es@[i], vs@[i]),
            None => scalar_cell(t, c, v),
        },
    }
}

/// The non-null cell `c` can be decoded as the type `t`, which is not a
/// composite: the driver reads it, and a timestamp is not before the epoch
/// and fits 64-bit milliseconds.
pub open spec fn simple_cell_accepts(t: PgType, c: PgCell) -> bool {
    match t {
        PgType::Bpchar => c is Text,
        PgType::Uuid => c is Uuid,
        PgType::Timestamp | PgType::Timestamptz => c matches PgCell::Timestamp(ns) && 0 <= ns && millis_of(ns as int) <= i64::MAX,
        PgType::Date => c is Date,
        _ => match array_element(t) {
            Some(e) => c matches PgCell::Array(es) && forall|i: int| 0 <= i < es@.len() ==> #[trigger] scalar_accepts(e, es@[i]),
            None => scalar_accepts(t, c),
        },
    }
}

/// A composite field: null stays null, anything else is decoded as a column
/// of the field's type is.
pub open spec fn field_value(t: PgType, c: PgCell, v: Option<Scalar>) -> bool {
    if c is Null {
        v is None
    } else {
        v matches Some(x) && simple_cell_value(t, c, x)
    }
}

/// `v` is the value decoded from the non-null cell `c` of a column of type `t`.
pub open spec fn cell_value(t: PgType, c: PgCell, v: Scalar) -> bool {
    match t {
        PgType::Composite(fs) => c matches PgCell::Composite(cs) && v matches Scalar::Struct(vs) && vs@.len() == fs@.len()
            && forall|i: int| 0 <= i < fs@.len() ==> #[trigger] field_value(fs@[i].type_, cs@[i], vs@[i]),
        _ => simple_cell_value(t, c, v),
    }
}

/// The non-null cell `c` can be decoded as the type `t`; for a composite,
/// each field is null or decodes as its type.
pub open spec fn cell_accepts(t: PgType, c: PgCell) -> bool {
    match t {
        PgType::Composite(fs) => c matches PgCell::Composite(cs) && cs@.len() == fs@.len()
            && forall|i: int| 0 <= i < fs@.len() ==> #[trigger] cs@[i] is Null || simple_cell_accepts(fs@[i].type_, cs@[i]),
        _ => simple_cell_accepts(t, c),
    }
}

/// `v` is the column entry for the cell `c` of type `t`: null for null.
pub open spec fn cell_decodes(t: PgType, c: PgCell, v: Option<Scalar>) -> bool {
    if c is Null {
        v is None
    } else {
        v matches Some(x) && cell_value(t, c, x)
    }
}

fn decode_scalar(t: &PgType, c: &PgCell) -> (r: Option<Scalar>)
    ensures
        scalar_accepts(*t, *c) <==> r is Some,
        r matches Some(v) ==> scalar_cell(*t, *c, v),
{
    match (t, c) {
        (PgType::Int2, PgCell::Int2(x)) => Some(Scalar::Int16(*x)),
        (PgType::Int4, PgCell::Int4(x)) => Some(Scalar::Int32(*x)),
        (PgType::Int8, PgCell::Int8(x)) => Some(Scalar::Int64(*x)),
        (PgType::Float4, PgCell::Float4(x)) => Some(Scalar::Float32(*x)),
        (PgType::Float8, PgCell::Float8(x)) => Some(Scalar::Float64(*x)),
        (PgType::Bool, PgCell::Bool(x)) => Some(Scalar::Boolean(*x)),
        (PgType::Text, PgCell::Text(s)) | (PgType::Varchar, PgCell::Text(s)) | (PgType::Bpchar, PgCell::Text(s)) => {
            Some(Scalar::Utf8(s.clone()))
        },
        _ => None,
    }
}

fn decode_array(e: &PgType, es: &Vec<PgCell>, row: usize, column: usize) -> (r: Result<Vec<Option<Scalar>>, Error>)
    ensures
        r is Ok <==> forall|i: int| 0 <= i < es@.len() ==> #[trigger] scalar_accepts(*e, es@[i]),
        r matches Ok(vs) ==> vs@.len() == es@.len() && forall|i: int|
            0 <= i < es@.len() ==> #[trigger] element_value(*e, es@[i], vs@[i]),
{
    let mut vs: Vec<Option<Scalar>> = Vec::new();
    let mut i: usize = 0;
    while i < es.len()
        invariant
            i <= es@.len(),
            vs@.len() == i,
            forall|k: int| 0 <= k < i ==> #[trigger] scalar_accepts(*e, es@[k]),
            forall|k: int| 0 <= k < i ==> #[trigger] element_value(*e, es@[k], vs@[k]),
        decreases es@.len() - i,
    {
        match decode_scalar(e, &es[i]) {
            Some(v) => vs.push(Some(v)),
            None => {
                return Err(Error::FailedToGetRowValue { row, column });
            },
        }
        i = i + 1;
    }
    Ok(vs)
}

fn decode_composite(t: &PgType, cs: &Vec<PgCell>, row: usize, column: usize) -> (r: Result<Vec<Option<Scalar>>, Error>)
    requires
        t is Composite,
        is_mappable(*t),
    ensures
        r is Ok <==> (cs@.len() == t->Composite_0@.len() && forall|i: int| 0 <= i < t->Composite_0@.len()
            ==> #[trigger] cs@[i] is Null || simple_cell_accepts(t->Composite_0@[i].type_, cs@[i])),
        r matches Ok(vs) ==> vs@.len() == t->Composite_0@.len() && forall|i: int|
            0 <= i < t->Composite_0@.len() ==> #[trigger] field_value(t->Composite_0@[i].type_, cs@[i], vs@[i]),
{
    let fs = match t {
        PgType::Composite(fs) => fs,
        _ => {
            return Err(Error::FailedToGetRowValue { row, column });
        },
    };
    if cs.len() != fs.len() {
        return Err(Error::FailedToGetCompositeRowValue { row, column });
    }
    let mut vs: Vec<Option<Scalar>> = Vec::new();
    let mut i: usize = 0;
    while i < fs.len()
        invariant
            *t == PgType::Composite(*fs),
            is_mappable(*t),
            cs@.len() == fs@.len(),
            i <= fs@.len(),
            vs@.len() == i,
            forall|k: int| 0 <= k < i ==> #[trigger] cs@[k] is Null || simple_cell_accepts(fs@[k].type_, cs@[k]),
            forall|k: int| 0 <= k < i ==> #[trigger] field_value(fs@[k].type_, cs@[k], vs@[k]),
        decreases fs@.len() - i,
    {
        assert(is_simple_mappable(fs@[i as int].type_));
        match &cs[i] {
            PgCell::Null => vs.push(None),
            c => match decode_simple_cell(&fs[i].type_, c, row, column) {
                Ok(v) => vs.push(Some(v)),
                Err(_) => {
                    return Err(Error::FailedToGetCompositeRowValue { row, column });
                },
            },
        }
        i = i + 1;
    }
    Ok(vs)
}

/// Decodes one non-null cell of a type that is not a composite.
fn decode_simple_cell(t: &PgType, c: &PgCell, row: usize, column: usize) -> (r: Result<Scalar, Error>)
    requires
        is_simple_mappable(*t),
        !(c is Null),
    ensures
        r is Ok <==> simple_cell_accepts(*t, *c),
        r matches Ok(v) ==> simple_cell_value(*t, *c, v),
{
    match t {
        PgType::Bpchar => match c {
            PgCell::Text(s) => Ok(Scalar::Utf8(trim_bpchar(s.as_str()))),
            _ => Err(Error::FailedToGetRowValue { row, column }),
        },
        PgType::Uuid => match c {
            PgCell::Uuid(b) => Ok(Scalar::Utf8(uuid_to_string(*b))),
            _ => Err(Error::FailedToGetRowValue { row, column }),
        },
        PgType::Timestamp | PgType::Timestamptz => match c {
            PgCell::Timestamp(ns) => {
                if *ns < 0 {
                    return Err(Error::FailedToBuildRecordBatch { column });
                }
                let ms = *ns / 1_000_000;
                if ms > i64::MAX as i128 {
                    return Err(Error::FailedToConvertU128toI64 { row, column });
                }
                Ok(Scalar::Timestamp(ms as i64))
            },
            _ => Err(Error::FailedToGetRowValue { row, column }),
        },
        PgType::Date => match c {
            PgCell::Date(d) => Ok(Scalar::Date32(*d)),
            _ => Err(Error::FailedToGetRowValue { row, column }),
        },
        PgType::Int2Array | PgType::Int4Array | PgType::Int8Array | PgType::Float4Array
        | PgType::Float8Array | PgType::TextArray | PgType::BoolArray => {
            let e = match t {
                PgType::Int2Array => PgType::Int2,
                PgType::Int4Array => PgType::Int4,
                PgType::Int8Array => PgType::Int8,
                PgType::Float4Array => PgType::Float4,
                PgType::Float8Array => PgType::Float8,
                PgType::TextArray => PgType::Text,
                _ => PgType::Bool,
            };
            assert(array_element(*t) == Some(e));
            match c {
                PgCell::Array(es) => {
                    let vs = decode_array(&e, es, row, column)?;
                    Ok(Scalar::List(vs))
                },
                _ => Err(Error::FailedToGetRowValue { row, column }),
            }
        },
        _ => match decode_scalar(t, c) {
            Some(v) => Ok(v),
            None => Err(Error::FailedToGetRowValue { row, column }),
        },
    }
}

/// Decodes one cell of a column whose type maps up front.
fn decode_cell(t: &PgType, c: &PgCell, row: usize, column: usize) -> (r: Result<Option<Scalar>, Error>)
    requires
        is_mappable(*t),
    ensures
        r is Ok <==> (c is Null || cell_accepts(*t, *c)),
        r matches Ok(v) ==> cell_decodes(*t, *c, v),
{
    if let PgCell::Null = c {
        return Ok(None);
    }
    match t {
        PgType::Composite(_) => match c {
            PgCell::Composite(cs) => {
                let vs = decode_composite(t, cs, row, column)?;
                Ok(Some(Scalar::Struct(vs)))
            },
            _ => Err(Error::FailedToGetRowValue { row, column }),
        },
        _ => {
            let v = decode_simple_cell(t, c, row, column)?;
            Ok(Some(v))
        },
    }
}

/// Row `r` has a cell for column `j`.
pub open spec fn has_cell(rows: Seq<PgRow>, r: int, j: int) -> bool {
    0 <= j < rows[r].cells@.len()
}

pub open spec fn cell(rows: Seq<PgRow>, r: int, j: int) -> PgCell {
    rows[r].cells@[j]
}

/// The type of column `j`, as the first row describes it.
pub open spec fn column_type(rows: Seq<PgRow>, j: int) -> PgType {
    rows[0].columns@[j].type_
}

/// The first row, from `from` on, whose cell in column `j` is not null.
pub open spec fn first_non_null(rows: Seq<PgRow>, j: int, from: int) -> Option<int>
    decreases rows.len() - from,
{
    if from < 0 || from >= rows.len() {
        None
    } else if !(cell(rows, from, j) is Null) {
        Some(from)
    } else {
        first_non_null(rows, j, from + 1)
    }
}

/// The scale of a NUMERIC cell, as it decodes.
pub open spec fn numeric_scale(c: PgCell) -> nat {
    match c {
        PgCell::Numeric(bytes) => match numeric_decode(bytes@) {
            Some((_, _, sc)) => sc as nat,
            None => 0,
        },
        _ => 0,
    }
}

/// The integer that a decimal column of scale `cs` stores for the NUMERIC
/// cell `c`, where the cell decodes, its scale is at most `cs` and the result
/// fits 128 bits.
pub open spec fn numeric_stored(c: PgCell, cs: nat) -> Option<int> {
    match c {
        PgCell::Numeric(bytes) => match numeric_decode(bytes@) {
            Some((neg, ds, sc)) => if sc <= cs && fits_i128(signed_value(neg, ds) * pow10((cs - sc) as nat)) {
                Some(signed_value(neg, ds) * pow10((cs - sc) as nat))
            } else {
                None
            },
            None => None,
        },
        _ => None,
    }
}

/// The scale of a NUMERIC column: that of its first non-null value, 0 if
/// every value is null.
pub open spec fn column_scale(rows: Seq<PgRow>, j: int) -> nat {
    match first_non_null(rows, j, 0) {
        Some(r0) => numeric_scale(cell(rows, r0, j)),
        None => 0,
    }
}

/// Row `r` has a cell for column `j`, null or one that decodes as the column's type.
pub open spec fn mapped_cell_ok(rows: Seq<PgRow>, r: int, j: int) -> bool {
    has_cell(rows, r, j) && (cell(rows, r, j) is Null || cell_accepts(column_type(rows, j), cell(rows, r, j)))
}

/// Row `r` has a cell for column `j`, null or a NUMERIC that a decimal of scale `cs` holds.
pub open spec fn numeric_cell_ok(rows: Seq<PgRow>, r: int, j: int, cs: nat) -> bool {
    has_cell(rows, r, j) && (cell(rows, r, j) is Null || numeric_stored(cell(rows, r, j), cs) is Some)
}

/// Column `j` of `rows` decodes without error.
pub open spec fn column_ok(rows: Seq<PgRow>, j: int) -> bool {
    let t = column_type(rows, j);
    if is_mappable(t) {
        forall|r: int| 0 <= r < rows.len() ==> #[trigger] mapped_cell_ok(rows, r, j)
    } else if t is Numeric {
        &&& column_scale(rows, j) <= 38
        &&& forall|r: int| 0 <= r < rows.len() ==> #[trigger] numeric_cell_ok(rows, r, j, column_scale(rows, j))
    } else {
        true
    }
}

/// `d` is what column `j` of `rows` becomes: a nullable field without
/// metadata and its values, or nothing for a column whose type has no
/// canonical mapping. A NUMERIC column takes the scale of its first value; one
/// whose cells are all null has scale 0.
pub open spec fn column_result(rows: Seq<PgRow>, j: int, d: Option<(Field, Column)>) -> bool {
    let t = column_type(rows, j);
    let name = rows[0].columns@[j].name;
    if is_mappable(t) {
        d matches Some((f, col)) && f.name@ == name@ && f.nullable && f.metadata@.len() == 0
            && type_matches(t, f.data_type) && col@.len() == rows.len() && forall|r: int|
            0 <= r < rows.len() ==> #[trigger] cell_decodes(t, cell(rows, r, j), col@[r])
    } else if t is Numeric {
        let cs = column_scale(rows, j);
        d matches Some((f, col)) && f.name@ == name@ && f.nullable && f.metadata@.len() == 0
            && f.data_type == DataType::Decimal128(38, cs as i8)
            && col@.len() == rows.len() && forall|r: int|
            0 <= r < rows.len() ==> #[trigger] col@[r] == (if cell(rows, r, j) is Null {
                None
            } else {
                Some(Scalar::Decimal128(numeric_stored(cell(rows, r, j), cs)->0 as i128))
            })
    } else {
        d is None
    }
}

/// The fields of the columns that are kept, in order.
pub open spec fn kept_fields(d: Seq<Option<(Field, Column)>>) -> Seq<Field>
    decreases d.len(),
{
    if d.len() == 0 {
        Seq::empty()
    } else {
        match d.last() {
            Some((f, _)) => kept_fields(d.drop_last()).push(f),
            None => kept_fields(d.drop_last()),
        }
    }
}

/// The values of the columns that are kept, in order.
pub open spec fn kept_columns(d: Seq<Option<(Field, Column)>>) -> Seq<Column>
    decreases d.len(),
{
    if d.len() == 0 {
        Seq::empty()
    } else {
        match d.last() {
            Some((_, c)) => kept_columns(d.drop_last()).push(c),
            None => kept_columns(d.drop_last()),
        }
    }
}

proof fn lemma_kept_lengths(d: Seq<Option<(Field, Column)>>)
    ensures
        kept_fields(d).len() == kept_columns(d).len(),
    decreases d.len(),
{
    if d.len() > 0 {
        lemma_kept_lengths(d.drop_last());
    }
}

proof fn lemma_first_non_null(rows: Seq<PgRow>, j: int, from: int, r0: int)
    requires
        0 <= from <= r0 < rows.len(),
        !(cell(rows, r0, j) is Null),
        forall|k: int| from <= k < r0 ==> #[trigger] cell(rows, k, j) is Null,
    ensures
        first_non_null(rows, j, from) == Some(r0),
    decreases r0 - from,
{
    if from < r0 {
        lemma_first_non_null(rows, j, from + 1, r0);
    }
}

proof fn lemma_no_non_null(rows: Seq<PgRow>, j: int, from: int)
    requires
        0 <= from <= rows.len(),
        forall|k: int| from <= k < rows.len() ==> #[trigger] cell(rows, k, j) is Null,
    ensures
        first_non_null(rows, j, from) is None,
    decreases rows.len() - from,
{
    if from < rows.len() {
        lemma_no_non_null(rows, j, from + 1);
    }
}

proof fn lemma_scaled_magnitude(u: int, k: nat)
    ensures
        !fits_i128(u) ==> !fits_i128(u * pow10(k)),
    decreases k,
{
    if k > 0 {
        lemma_scaled_magnitude(u, (k - 1) as nat);
        let p = pow10((k - 1) as nat);
        assert(pow10(k) == 10 * p);
        let x = u * p;
        assert(u * (10 * p) == 10 * x) by (nonlinear_arith)
            requires
                x == u * p,
        ;
    } else {
        assert(pow10(0) == 1);
        assert(u * 1 == u);
    }
}

/// `u * 10^k`, where it fits.
fn rescale(u: i128, k: u16) -> (r: Option<i128>)
    ensures
        r == (if fits_i128(u * pow10(k as nat)) {
            Some((u * pow10(k as nat)) as i128)
        } else {
            None
        }),
{
    let mut v: i128 = u;
    let mut i: u16 = 0;
    assert(pow10(0) == 1);
    assert(u * 1 == u);
    while i < k
        invariant
            i <= k,
            v == u * pow10(i as nat),
        decreases k - i,
    {
        assert(pow10((i + 1) as nat) == 10 * pow10(i as nat));
        assert(u * pow10((i + 1) as nat) == v * 10) by (nonlinear_arith)
            requires
                v == u * pow10(i as nat),
                pow10((i + 1) as nat) == 10 * pow10(i as nat),
        ;
        match v.checked_mul(10) {
            Some(w) => {
                v = w;
            },
            None => {
                proof {
                    lemma_scaled_magnitude(u * pow10((i + 1) as nat), (k - i - 1) as nat);
                    lemma_pow10_add((i + 1) as nat, (k - i - 1) as nat);
                    assert(u * pow10((i + 1) as nat) * pow10((k - i - 1) as nat) == u * pow10(k as nat)) by (nonlinear_arith)
                        requires
                            pow10(k as nat) == pow10((i + 1) as nat) * pow10((k - i - 1) as nat),
                    ;
                }
                return None;
            },
        }
        i = i + 1;
    }
    Some(v)
}

fn decode_mapped_column(rows: &Vec<PgRow>, j: usize, dt: DataType) -> (r: Result<Option<(Field, Column)>, Error>)
    requires
        rows@.len() > 0,
        j < rows@[0].columns@.len(),
        is_mappable(column_type(rows@, j as int)),
        type_matches(column_type(rows@, j as int), dt),
    ensures
        r is Ok <==> column_ok(rows@, j as int),
        r matches Ok(d) ==> column_result(rows@, j as int, d),
{
    let col = &rows[0].columns[j];
    let ghost t = column_type(rows@, j as int);
    let mut values: Vec<Option<Scalar>> = Vec::new();
    let mut r: usize = 0;
    while r < rows.len()
        invariant
            rows@.len() > 0,
            j < rows@[0].columns@.len(),
            *col == rows@[0].columns@[j as int],
            t == col.type_,
            is_mappable(t),
            r <= rows@.len(),
            values@.len() == r,
            forall|k: int| 0 <= k < r ==> #[trigger] mapped_cell_ok(rows@, k, j as int),
            forall|k: int| 0 <= k < r ==> #[trigger] cell_decodes(t, cell(rows@, k, j as int), values@[k]),
        decreases rows@.len() - r,
    {
        let row = &rows[r];
        if j >= row.cells.len() {
            assert(!mapped_cell_ok(rows@, r as int, j as int));
            return Err(Error::FailedToGetRowValue { row: r, column: j });
        }
        let v = match decode_cell(&col.type_, &row.cells[j], r, j) {
            Ok(v) => v,
            Err(e) => {
                assert(!mapped_cell_ok(rows@, r as int, j as int));
                return Err(e);
            },
        };
        assert(mapped_cell_ok(rows@, r as int, j as int));
        values.push(v);
        r = r + 1;
    }
    Ok(Some((Field::new(col.name.clone(), dt, true), values)))
}

/// The integer stored for the non-null NUMERIC cell `c` in a column of scale `cs`.
fn numeric_cell(c: &PgCell, cs: u16, row: usize, column: usize) -> (r: Result<i128, Error>)
    ensures
        r is Ok <==> numeric_stored(*c, cs as nat) is Some,
        r matches Ok(x) ==> numeric_stored(*c, cs as nat) == Some(x as int),
{
    match c {
        PgCell::Numeric(bytes) => {
            let v = match PgNumeric::from_sql(bytes) {
                Ok(v) => v,
                Err(_) => {
                    return Err(Error::FailedToParseBigDecimalFromPostgres { bytes: bytes.clone() });
                },
            };
            if v.scale > cs {
                return Err(Error::FailedToConvertBigDecimalToI128 { row, column });
            }
            let u = match v.to_decimal_128() {
                Some(u) => u,
                None => {
                    proof {
                        lemma_scaled_magnitude(v.unscaled(), (cs - v.scale) as nat);
                    }
                    return Err(Error::FailedToConvertBigDecimalToI128 { row, column });
                },
            };
            match rescale(u, cs - v.scale) {
                Some(x) => Ok(x),
                None => Err(Error::FailedToConvertBigDecimalToI128 { row, column }),
            }
        },
        _ => Err(Error::FailedToGetRowValue { row, column }),
    }
}

/// The scale of the NUMERIC cell `c`, where it decodes.
fn numeric_cell_scale(c: &PgCell, row: usize, column: usize) -> (r: Result<u16, Error>)
    ensures
        r matches Ok(s) ==> s == numeric_scale(*c) && numeric_stored(*c, s as nat) is Some,
        r is Err ==> forall|cs: nat| #[trigger] numeric_stored(*c, cs) is None,
{
    match c {
        PgCell::Numeric(bytes) => {
            let v = match PgNumeric::from_sql(bytes) {
                Ok(v) => v,
                Err(_) => {
                    return Err(Error::FailedToParseBigDecimalFromPostgres { bytes: bytes.clone() });
                },
            };
            match numeric_cell(c, v.scale, row, column) {
                Ok(_) => Ok(v.scale),
                Err(e) => {
                    assert forall|cs: nat| #[trigger] numeric_stored(*c, cs) is None by {
                        if cs >= v.scale {
                            lemma_scaled_magnitude(v.unscaled(), (cs - v.scale) as nat);
                            assert(pow10(0) == 1);
                            assert(v.unscaled() * 1 == v.unscaled());
                        }
                    }
                    Err(e)
                },
            }
        },
        _ => Err(Error::FailedToGetRowValue { row, column }),
    }
}

/// Row `k` has a null cell for column `j`.
pub open spec fn null_cell(rows: Seq<PgRow>, k: int, j: int) -> bool {
    has_cell(rows, k, j) && cell(rows, k, j) is Null
}

fn is_null_cell(row: &PgRow, j: usize) -> (r: bool)
    ensures
        r <==> (j < row.cells@.len() && row.cells@[j as int] is Null),
{
    j < row.cells.len() && matches!(row.cells[j], PgCell::Null)
}

fn decode_numeric_column(rows: &Vec<PgRow>, j: usize) -> (r: Result<Option<(Field, Column)>, Error>)
    requires
        rows@.len() > 0,
        j < rows@[0].columns@.len(),
        column_type(rows@, j as int) is Numeric,
    ensures
        r is Ok <==> column_ok(rows@, j as int),
        r matches Ok(d) ==> column_result(rows@, j as int, d),
{
    let col = &rows[0].columns[j];
    // The first row with a value gives the column its scale.
    let mut r0: usize = 0;
    while r0 < rows.len() && is_null_cell(&rows[r0], j)
        invariant
            r0 <= rows@.len(),
            forall|k: int| 0 <= k < r0 ==> #[trigger] null_cell(rows@, k, j as int),
        decreases rows@.len() - r0,
    {
        r0 = r0 + 1;
    }
    if r0 == rows.len() {
        proof {
            assert forall|k: int| 0 <= k < rows@.len() implies #[trigger] cell(rows@, k, j as int) is Null by {
                assert(null_cell(rows@, k, j as int));
            }
            lemma_no_non_null(rows@, j as int, 0);
            assert forall|k: int| 0 <= k < rows@.len() implies #[trigger] numeric_cell_ok(rows@, k, j as int, column_scale(rows@, j as int)) by {
                assert(null_cell(rows@, k, j as int));
            }
        }
        // Without a value to take the scale from, the column holds nulls at scale 0.
        let mut values: Vec<Option<Scalar>> = Vec::new();
        let mut k: usize = 0;
        while k < rows.len()
            invariant
                k <= rows@.len(),
                values@.len() == k,
                forall|i: int| 0 <= i < k ==> #[trigger] values@[i] is None,
            decreases rows@.len() - k,
        {
            values.push(None);
            k = k + 1;
        }
        assert forall|i: int| 0 <= i < rows@.len() implies #[trigger] values@[i] == (if cell(rows@, i, j as int) is Null {
            None
        } else {
            Some(Scalar::Decimal128(numeric_stored(cell(rows@, i, j as int), column_scale(rows@, j as int))->0 as i128))
        }) by {
            assert(null_cell(rows@, i, j as int));
        }
        return Ok(Some((Field::new(col.name.clone(), DataType::Decimal128(38, 0), true), values)));
    }
    if j >= rows[r0].cells.len() {
        assert(!numeric_cell_ok(rows@, r0 as int, j as int, column_scale(rows@, j as int)));
        return Err(Error::FailedToGetRowValue { row: r0, column: j });
    }
    proof {
        assert forall|k: int| 0 <= k < r0 implies #[trigger] cell(rows@, k, j as int) is Null by {
            assert(null_cell(rows@, k, j as int));
        }
        lemma_first_non_null(rows@, j as int, 0, r0 as int);
    }
    let cs = match numeric_cell_scale(&rows[r0].cells[j], r0, j) {
        Ok(cs) => cs,
        Err(e) => {
            assert(!numeric_cell_ok(rows@, r0 as int, j as int, column_scale(rows@, j as int)));
            return Err(e);
        },
    };
    if cs > 38 {
        return Err(Error::FailedToConvertBigDecimalToI128 { row: r0, column: j });
    }
    let ghost scale = column_scale(rows@, j as int);
    assert(cs as nat == scale);
    let mut values: Vec<Option<Scalar>> = Vec::new();
    let mut r: usize = 0;
    while r < rows.len()
        invariant
            rows@.len() > 0,
            j < rows@[0].columns@.len(),
            column_type(rows@, j as int) is Numeric,
            scale == column_scale(rows@, j as int),
            scale <= 38,
            cs as nat == scale,
            r <= rows@.len(),
            values@.len() == r,
            forall|k: int| 0 <= k < r ==> #[trigger] numeric_cell_ok(rows@, k, j as int, scale),
            forall|k: int| 0 <= k < r ==> #[trigger] values@[k] == (if cell(rows@, k, j as int) is Null {
                None
            } else {
                Some(Scalar::Decimal128(numeric_stored(cell(rows@, k, j as int), scale)->0 as i128))
            }),
        decreases rows@.len() - r,
    {
        let row = &rows[r];
        if j >= row.cells.len() {
            assert(!numeric_cell_ok(rows@, r as int, j as int, scale));
            return Err(Error::FailedToGetRowValue { row: r, column: j });
        }
        match &row.cells[j] {
            PgCell::Null => {
                values.push(None);
            },
            c => {
                let x = match numeric_cell(c, cs, r, j) {
                    Ok(x) => x,
                    Err(e) => {
                        assert(!numeric_cell_ok(rows@, r as int, j as int, scale));
                        return Err(e);
                    },
                };
                values.push(Some(Scalar::Decimal128(x)));
            },
        }
        r = r + 1;
    }
    Ok(Some((Field::new(col.name.clone(), DataType::Decimal128(38, cs as i8), true), values)))
}

/// The batch `b` holds, in order, what each column of `rows` became, as `d` records it.
pub open spec fn decoded_as(rows: Seq<PgRow>, d: Seq<Option<(Field, Column)>>, b: RecordBatch) -> bool {
    &&& d.len() == rows[0].columns@.len()
    &&& forall|j: int| 0 <= j < d.len() ==> #[trigger] column_result(rows, j, d[j])
    &&& b.schema@ == kept_fields(d)
    &&& b.columns@ == kept_columns(d)
}

/// `b` is what `rows` decode to, column by column.
pub open spec fn batch_of_rows(rows: Seq<PgRow>, b: RecordBatch) -> bool {
    exists|d: Seq<Option<(Field, Column)>>| #[trigger] decoded_as(rows, d, b)
}

/// Decodes PostgreSQL rows into a record batch. The first row's columns give
/// the schema; a column whose type has no canonical mapping is left out. The
/// batch always has one entry per row in each column, nulls included.
pub fn rows_to_arrow(rows: &Vec<PgRow>) -> (r: Result<RecordBatch, Error>)
    ensures
        rows@.len() == 0 ==> (r matches Ok(b) && b.schema@.len() == 0 && b.columns@.len() == 0 && b.row_count == 0),
        rows@.len() > 0 ==> (r is Ok <==> forall|j: int| 0 <= j < rows@[0].columns@.len() ==> #[trigger] column_ok(rows@, j)),
        r matches Ok(b) ==> b.row_count == rows@.len() && b.aligned(),
        r matches Ok(b) ==> (rows@.len() > 0 ==> batch_of_rows(rows@, b)),
{
    if rows.len() == 0 {
        return Ok(RecordBatch { schema: Vec::new(), columns: Vec::new(), row_count: 0 });
    }
    let n = rows[0].columns.len();
    let mut schema: Vec<Field> = Vec::new();
    let mut columns: Vec<Column> = Vec::new();
    let ghost mut d: Seq<Option<(Field, Column)>> = Seq::empty();
    let mut j: usize = 0;
    while j < n
        invariant
            rows@.len() > 0,
            n == rows@[0].columns@.len(),
            j <= n,
            d.len() == j,
            forall|k: int| 0 <= k < j ==> #[trigger] column_ok(rows@, k),
            forall|k: int| 0 <= k < j ==> #[trigger] column_result(rows@, k, d[k]),
            schema@ == kept_fields(d),
            columns@ == kept_columns(d),
            forall|i: int| 0 <= i < columns@.len() ==> #[trigger] columns@[i]@.len() == rows@.len(),
        decreases n - j,
    {
        let t = &rows[0].columns[j].type_;
        let res = match map_column_type_to_data_type(t) {
            Some(dt) => decode_mapped_column(rows, j, dt)?,
            None => match t {
                PgType::Numeric => decode_numeric_column(rows, j)?,
                _ => None,
            },
        };
        assert(column_result(rows@, j as int, res));
        let ghost prev = d;
        proof {
            d = d.push(res);
            assert(d.drop_last() == prev);
        }
        match res {
            Some((f, col)) => {
                schema.push(f);
                columns.push(col);
            },
            None => {},
        }
        assert forall|k: int| 0 <= k < j + 1 implies #[trigger] column_result(rows@, k, d[k]) by {
            if k < j {
                assert(d[k] == prev[k]);
            }
        }
        j = j + 1;
    }
    proof {
        lemma_kept_lengths(d);
    }
    let b = RecordBatch { schema, columns, row_count: rows.len() };
    assert(decoded_as(rows@, d, b));
    assert(batch_of_rows(rows@, b));
    Ok(b)
}

proof fn lemma_kept_all(d: Seq<Option<(Field, Column)>>)
    requires
        forall|i: int| 0 <= i < d.len() ==> #[trigger] d[i] is Some,
    ensures
        kept_fields(d).len() == d.len(),
        kept_columns(d).len() == d.len(),
        forall|i: int| 0 <= i < d.len() ==> #[trigger] d[i] == Some((kept_fields(d)[i], kept_columns(d)[i])),
    decreases d.len(),
{
    if d.len() > 0 {
        let d1 = d.drop_last();
        assert forall|i: int| 0 <= i < d1.len() implies #[trigger] d1[i] is Some by {
            assert(d1[i] == d[i]);
        }
        lemma_kept_all(d1);
        assert(d.last() is Some);
        assert forall|i: int| 0 <= i < d.len() implies #[trigger] d[i] == Some((kept_fields(d)[i], kept_columns(d)[i])) by {
            if i < d1.len() {
                assert(d1[i] == d[i]);
            }
        }
    }
}

/// Every column that has a canonical type keeps its place: when no column of
/// the rows is left out, field `j` of the batch is column `j` under its own
/// name, and its entries are the column's cells decoded, one per row.
pub proof fn lemma_columns_in_place(rows: Seq<PgRow>, b: RecordBatch)
    requires
        rows.len() > 0,
        batch_of_rows(rows, b),
        forall|j: int| 0 <= j < rows[0].columns@.len() ==> is_mappable(#[trigger] column_type(rows, j))
            || column_type(rows, j) is Numeric,
    ensures
        b.schema@.len() == rows[0].columns@.len(),
        b.columns@.len() == rows[0].columns@.len(),
        forall|j: int| 0 <= j < rows[0].columns@.len() ==> #[trigger] column_result(rows, j, Some((b.schema@[j], b.columns@[j]))),
{
    let d = choose|d: Seq<Option<(Field, Column)>>| #[trigger] decoded_as(rows, d, b);
    assert forall|i: int| 0 <= i < d.len() implies #[trigger] d[i] is Some by {
        assert(column_result(rows, i, d[i]));
        assert(is_mappable(column_type(rows, i)) || column_type(rows, i) is Numeric);
    }
    lemma_kept_all(d);
    assert forall|j: int| 0 <= j < rows[0].columns@.len() implies #[trigger] column_result(rows, j, Some((b.schema@[j], b.columns@[j]))) by {
        assert(column_result(rows, j, d[j]));
        assert(d[j] == Some((b.schema@[j], b.columns@[j])));
    }
}

/// A BPCHAR value in a batch is the cell's text without its trailing spaces,
/// wherever no column of the rows is left out.
pub proof fn lemma_bpchar_column(rows: Seq<PgRow>, b: RecordBatch, j: int, r: int)
    requires
        rows.len() > 0,
        batch_of_rows(rows, b),
        forall|k: int| 0 <= k < rows[0].columns@.len() ==> is_mappable(#[trigger] column_type(rows, k))
            || column_type(rows, k) is Numeric,
        0 <= j < rows[0].columns@.len(),
        0 <= r < rows.len(),
        column_type(rows, j) is Bpchar,
        cell(rows, r, j) is Text,
    ensures
        b.columns@[j]@[r] matches Some(Scalar::Utf8(o)) && o@ == trim_trailing_spaces(cell(rows, r, j)->Text_0@),
{
    lemma_columns_in_place(rows, b);
    assert(column_result(rows, j, Some((b.schema@[j], b.columns@[j]))));
    assert(cell_decodes(column_type(rows, j), cell(rows, r, j), b.columns@[j]@[r]));
}

/// A UUID value in a batch is the canonical lowercase hyphenated text of the
/// cell's bytes, wherever no column of the rows is left out.
pub proof fn lemma_uuid_column(rows: Seq<PgRow>, b: RecordBatch, j: int, r: int)
    requires
        rows.len() > 0,
        batch_of_rows(rows, b),
        forall|k: int| 0 <= k < rows[0].columns@.len() ==> is_mappable(#[trigger] column_type(rows, k))
            || column_type(rows, k) is Numeric,
        0 <= j < rows[0].columns@.len(),
        0 <= r < rows.len(),
        column_type(rows, j) is Uuid,
        cell(rows, r, j) is Uuid,
    ensures
        b.columns@[j]@[r] matches Some(Scalar::Utf8(o)) && o@ == uuid_text(cell(rows, r, j)->Uuid_0@),
{
    lemma_columns_in_place(rows, b);
    assert(column_result(rows, j, Some((b.schema@[j], b.columns@[j]))));
    assert(cell_decodes(column_type(rows, j), cell(rows, r, j), b.columns@[j]@[r]));
}

/// A composite value in a batch is a struct whose fields are the composite's
/// fields decoded in order, null for null, and the column's type is the
/// struct of the composite's fields; wherever no column of the rows is left out.
pub proof fn lemma_composite_column(rows: Seq<PgRow>, b: RecordBatch, j: int, r: int)
    requires
        rows.len() > 0,
        batch_of_rows(rows, b),
        forall|k: int| 0 <= k < rows[0].columns@.len() ==> is_mappable(#[trigger] column_type(rows, k))
            || column_type(rows, k) is Numeric,
        0 <= j < rows[0].columns@.len(),
        0 <= r < rows.len(),
        column_type(rows, j) is Composite,
        cell(rows, r, j) is Composite,
    ensures
        type_matches(column_type(rows, j), b.schema@[j].data_type),
        b.columns@[j]@[r] matches Some(Scalar::Struct(vs)) && vs@.len() == column_type(rows, j)->Composite_0@.len()
            && forall|i: int| 0 <= i < vs@.len() ==> #[trigger] field_value(
                column_type(rows, j)->Composite_0@[i].type_,
                cell(rows, r, j)->Composite_0@[i],
                vs@[i],
            ),
{
    lemma_columns_in_place(rows, b);
    assert(column_result(rows, j, Some((b.schema@[j], b.columns@[j]))));
    assert(cell_decodes(column_type(rows, j), cell(rows, r, j), b.columns@[j]@[r]));
}

} // verus!
