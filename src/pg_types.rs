use crate::columnar::{DataType, Field, TimeUnit};
use vstd::prelude::*;
use vstd::string::*;

verus! {

/// A PostgreSQL column type, as the server describes it.
#[derive(Debug)]
pub enum PgType {
    Int2,
    Int4,
    Int8,
    Float4,
    Float8,
    Text,
    Varchar,
    Bpchar,
    Bool,
    Numeric,
    Timestamp,
    Timestamptz,
    Date,
    Uuid,
    Int2Array,
    Int4Array,
    Int8Array,
    Float4Array,
    Float8Array,
    TextArray,
    BoolArray,
    /// A record type with its named fields, in order.
    Composite(Vec<PgField>),
    /// Any other type, by name.
    Other(String),
}

/// A named field of a composite type.
#[derive(Debug)]
pub struct PgField {
    pub name: String,
    pub type_: PgType,
}

/// A column of a result set.
#[derive(Debug)]
pub struct PgColumn {
    pub name: String,
    pub type_: PgType,
}

/// The value of one cell as the driver reads it. Floating-point values are
/// held as their IEEE-754 bits, timestamps as signed nanoseconds since the
/// Unix epoch, dates as days since the epoch, NUMERIC as its binary form.
#[derive(Debug)]
pub enum PgCell {
    Null,
    Int2(i16),
    Int4(i32),
    Int8(i64),
    Float4(u32),
    Float8(u64),
    Bool(bool),
    Text(String),
    Numeric(Vec<u8>),
    Timestamp(i128),
    Date(i32),
    Uuid([u8; 16]),
    Array(Vec<PgCell>),
    Composite(Vec<PgCell>),
}

/// A row of a result set: its columns and one cell for each.
#[derive(Debug)]
pub struct PgRow {
    pub columns: Vec<PgColumn>,
    pub cells: Vec<PgCell>,
}

/// The element type of an array type.
pub open spec fn array_element(t: PgType) -> Option<PgType> {
    match t {
        PgType::Int2Array => Some(PgType::Int2),
        PgType::Int4Array => Some(PgType::Int4),
        PgType::Int8Array => Some(PgType::Int8),
        PgType::Float4Array => Some(PgType::Float4),
        PgType::Float8Array => Some(PgType::Float8),
        PgType::TextArray => Some(PgType::Text),
        PgType::BoolArray => Some(PgType::Bool),
        _ => None,
    }
}

/// The types that map to a canonical type on their own: all but NUMERIC
/// (which waits for its scale), composites and types without a mapping.
pub open spec fn is_simple_mappable(t: PgType) -> bool {
    !(t is Numeric) && !(t is Other) && !(t is Composite)
}

/// The types that map to a canonical type up front: the simple ones, and
/// composites whose fields all are simple (composites do not nest).
pub open spec fn is_mappable(t: PgType) -> bool {
    match t {
        PgType::Composite(fs) => forall|i: int| 0 <= i < fs@.len() ==> is_simple_mappable(#[trigger] fs@[i].type_),
        _ => is_simple_mappable(t),
    }
}

/// `d` is the canonical type of the scalar type `t`.
pub open spec fn scalar_type_matches(t: PgType, d: DataType) -> bool {
    match t {
        PgType::Int2 => d is Int16,
        PgType::Int4 => d is Int32,
        PgType::Int8 => d is Int64,
        PgType::Float4 => d is Float32,
        PgType::Float8 => d is Float64,
        PgType::Text | PgType::Varchar | PgType::Bpchar | PgType::Uuid => d is Utf8,
        PgType::Bool => d is Boolean,
        _ => false,
    }
}

pub open spec fn item_name() -> Seq<char> {
    seq!['i', 't', 'e', 'm']
}

/// `d` is the canonical type of the type `t`, which is not a composite.
/// Fields inside it carry no metadata.
pub open spec fn simple_type_matches(t: PgType, d: DataType) -> bool {
    match t {
        PgType::Timestamp | PgType::Timestamptz => d matches DataType::Timestamp(TimeUnit::Millisecond, None),
        PgType::Date => d is Date32,
        _ => match array_element(t) {
            Some(e) => match d {
                DataType::List(f) => f.name@ == item_name() && f.nullable && f.metadata@.len() == 0
                    && scalar_type_matches(e, f.data_type),
                _ => false,
            },
            None => scalar_type_matches(t, d),
        },
    }
}

/// `d` is the canonical type of `t`: a composite becomes a struct with one
/// nullable field per composite field, in order, each mapped the same way.
/// Fields inside it carry no metadata.
pub open spec fn type_matches(t: PgType, d: DataType) -> bool {
    match t {
        PgType::Composite(fs) => match d {
            DataType::Struct(gs) => gs@.len() == fs@.len() && forall|i: int|
                0 <= i < fs@.len() ==> #[trigger] gs@[i].name@ == fs@[i].name@ && gs@[i].nullable
                    && gs@[i].metadata@.len() == 0 && simple_type_matches(fs@[i].type_, gs@[i].data_type),
            _ => false,
        },
        _ => simple_type_matches(t, d),
    }
}

fn scalar_data_type(t: &PgType) -> (r: Option<DataType>)
    ensures
        r matches Some(d) ==> scalar_type_matches(*t, d),
        (t is Int2 || t is Int4 || t is Int8 || t is Float4 || t is Float8 || t is Text || t is Varchar
            || t is Bpchar || t is Uuid || t is Bool) <==> r is Some,
{
    match t {
        PgType::Int2 => Some(DataType::Int16),
        PgType::Int4 => Some(DataType::Int32),
        PgType::Int8 => Some(DataType::Int64),
        PgType::Float4 => Some(DataType::Float32),
        PgType::Float8 => Some(DataType::Float64),
        PgType::Text | PgType::Varchar | PgType::Bpchar | PgType::Uuid => Some(DataType::Utf8),
        PgType::Bool => Some(DataType::Boolean),
        _ => None,
    }
}

fn list_of(item: DataType) -> (r: DataType)
    ensures
        r matches DataType::List(f) && f.name@ == item_name() && f.nullable && f.metadata@.len() == 0
            && f.data_type == item,
{
    proof { reveal_strlit("item"); }
    let name = String::from_str("item");
    assert(name@ =~= item_name());
    DataType::List(Box::new(Field::new(name, item, true)))
}

/// The canonical type of a type that is not a composite, where it has one up front.
fn simple_data_type(t: &PgType) -> (r: Option<DataType>)
    ensures
        is_simple_mappable(*t) <==> r is Some,
        r matches Some(d) ==> simple_type_matches(*t, d),
{
    match t {
        PgType::Numeric | PgType::Other(_) | PgType::Composite(_) => None,
        PgType::Timestamp | PgType::Timestamptz => Some(DataType::Timestamp(TimeUnit::Millisecond, None)),
        PgType::Date => Some(DataType::Date32),
        PgType::Int2Array => Some(list_of(DataType::Int16)),
        PgType::Int4Array => Some(list_of(DataType::Int32)),
        PgType::Int8Array => Some(list_of(DataType::Int64)),
        PgType::Float4Array => Some(list_of(DataType::Float32)),
        PgType::Float8Array => Some(list_of(DataType::Float64)),
        PgType::TextArray => Some(list_of(DataType::Utf8)),
        PgType::BoolArray => Some(list_of(DataType::Boolean)),
        _ => scalar_data_type(t),
    }
}

/// The canonical type of a column type, where it has one up front.
pub fn map_column_type_to_data_type(t: &PgType) -> (r: Option<DataType>)
    ensures
        is_mappable(*t) <==> r is Some,
        r matches Some(d) ==> type_matches(*t, d),
{
    match t {
        PgType::Composite(fs) => {
            let mut fields: Vec<Field> = Vec::new();
            let mut i: usize = 0;
            while i < fs.len()
                invariant
                    *t == PgType::Composite(*fs),
                    i <= fs@.len(),
                    fields@.len() == i,
                    forall|k: int| 0 <= k < i ==> is_simple_mappable(#[trigger] fs@[k].type_),
                    forall|k: int|
                        0 <= k < i ==> #[trigger] fields@[k].name@ == fs@[k].name@ && fields@[k].nullable
                            && fields@[k].metadata@.len() == 0 && simple_type_matches(fs@[k].type_, fields@[k].data_type),
                decreases fs@.len() - i,
            {
                let f = &fs[i];
                match simple_data_type(&f.type_) {
                    Some(d) => {
                        fields.push(Field::new(f.name.clone(), d, true));
                    },
                    None => {
                        assert(!is_simple_mappable(fs@[i as int].type_));
                        return None;
                    },
                }
                i = i + 1;
            }
            Some(DataType::Struct(fields))
        },
        _ => simple_data_type(t),
    }
}

/// The columns that map up front, in order.
pub open spec fn mappable_columns(cols: Seq<PgColumn>) -> Seq<PgColumn>
    decreases cols.len(),
{
    if cols.len() == 0 {
        Seq::empty()
    } else if is_mappable(cols.last().type_) {
        mappable_columns(cols.drop_last()).push(cols.last())
    } else {
        mappable_columns(cols.drop_last())
    }
}

/// The schema of a result set: one nullable field for each column whose type
/// maps up front, in order.
pub fn columns_to_schema(cols: &Vec<PgColumn>) -> (r: Result<Vec<Field>, ()>)
    ensures
        r matches Ok(fields) && fields@.len() == mappable_columns(cols@).len() && forall|k: int|
            0 <= k < fields@.len() ==> #[trigger] fields@[k].name@ == mappable_columns(cols@)[k].name@
                && fields@[k].nullable && fields@[k].metadata@.len() == 0
                && type_matches(mappable_columns(cols@)[k].type_, fields@[k].data_type),
{
    let mut fields: Vec<Field> = Vec::new();
    let mut i: usize = 0;
    while i < cols.len()
        invariant
            i <= cols@.len(),
            fields@.len() == mappable_columns(cols@.take(i as int)).len(),
            forall|k: int|
                0 <= k < fields@.len() ==> #[trigger] fields@[k].name@ == mappable_columns(cols@.take(i as int))[k].name@
                    && fields@[k].nullable && fields@[k].metadata@.len() == 0
                    && type_matches(mappable_columns(cols@.take(i as int))[k].type_, fields@[k].data_type),
        decreases cols@.len() - i,
    {
        let c = &cols[i];
        let ghost prev = mappable_columns(cols@.take(i as int));
        assert(cols@.take(i + 1).drop_last() =~= cols@.take(i as int));
        assert(cols@.take(i + 1).last() == cols@[i as int]);
        match map_column_type_to_data_type(&c.type_) {
            Some(d) => {
                fields.push(Field::new(c.name.clone(), d, true));
                assert(mappable_columns(cols@.take(i + 1)) == prev.push(cols@[i as int]));
                assert forall|k: int| 0 <= k < fields@.len() implies #[trigger] fields@[k].name@
                    == mappable_columns(cols@.take(i + 1))[k].name@ && fields@[k].nullable && fields@[k].metadata@.len() == 0
                    && type_matches(
                    mappable_columns(cols@.take(i + 1))[k].type_,
                    fields@[k].data_type,
                ) by {
                    if k < prev.len() {
                        assert(mappable_columns(cols@.take(i + 1))[k] == prev[k]);
                    }
                }
            },
            None => {
                assert(mappable_columns(cols@.take(i + 1)) == prev);
            },
        }
        i = i + 1;
    }
    assert(i == cols@.len());
    assert(cols@.take(i as int) =~= cols@);
    assert(mappable_columns(cols@.take(i as int)) == mappable_columns(cols@));
    Ok(fields)
}

/// The name of the composite type that holds a struct field of a table.
pub open spec fn composite_type_name(table: Seq<char>, field: Seq<char>) -> Seq<char> {
    "struct_"@ + table + "_"@ + field
}

pub fn get_postgres_composite_type_name(table_name: &str, field_name: &str) -> (r: String)
    ensures
        r@ == composite_type_name(table_name@, field_name@),
{
    let mut out = String::from_str("struct_");
    out.append(table_name);
    out.append("_");
    out.append(field_name);
    out
}

/// The custom column type that a struct field is declared with in PostgreSQL;
/// other types take the generic mapping.
pub fn map_data_type_to_column_type_postgres(data_type: &DataType, table_name: &str, field_name: &str) -> (r: Option<String>)
    ensures
        data_type is Struct <==> r is Some,
        r matches Some(n) ==> n@ == composite_type_name(table_name@, field_name@),
{
    match data_type {
        DataType::Struct(_) => Some(get_postgres_composite_type_name(table_name, field_name)),
        _ => None,
    }
}

} // verus!
