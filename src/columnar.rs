use vstd::prelude::*;

verus! {

/// The unit of a timestamp column.
#[derive(Debug, Clone, Copy)]
pub enum TimeUnit {
    Second,
    Millisecond,
    Microsecond,
    Nanosecond,
}

/// The canonical, vendor-neutral column types.
#[derive(Debug)]
pub enum DataType {
    Boolean,
    Int8,
    Int16,
    Int32,
    Int64,
    UInt32,
    Float32,
    Float64,
    Utf8,
    LargeUtf8,
    Binary,
    LargeBinary,
    /// Days since 1970-01-01.
    Date32,
    /// A count of units since the epoch, with an optional time zone.
    Timestamp(TimeUnit, Option<String>),
    /// Precision and scale.
    Decimal128(u8, i8),
    List(Box<Field>),
    Struct(Vec<Field>),
}

/// A named, typed column of a schema, with key/value metadata.
#[derive(Debug)]
pub struct Field {
    pub name: String,
    pub data_type: DataType,
    pub nullable: bool,
    pub metadata: Vec<(String, String)>,
}

/// One non-null value of a column. Floating-point values are held as their
/// IEEE-754 bit patterns.
#[derive(Debug)]
pub enum Scalar {
    Boolean(bool),
    Int8(i8),
    Int16(i16),
    Int32(i32),
    Int64(i64),
    UInt32(u32),
    Float32(u32),
    Float64(u64),
    Utf8(String),
    LargeUtf8(String),
    Binary(Vec<u8>),
    LargeBinary(Vec<u8>),
    Date32(i32),
    /// Units since the epoch, in the unit of the column's type.
    Timestamp(i64),
    /// The unscaled value; the column's type gives the scale.
    Decimal128(i128),
    List(Vec<Option<Scalar>>),
    Struct(Vec<Option<Scalar>>),
}

/// A table constraint, by column position in the table's schema.
#[derive(Debug)]
pub enum Constraint {
    PrimaryKey(Vec<usize>),
    Unique(Vec<usize>),
}

/// The values of one column, `None` for a null.
pub type Column = Vec<Option<Scalar>>;

/// Equally long columns with their schema. The row count is carried on its
/// own, so that a batch without columns still has one.
#[derive(Debug)]
pub struct RecordBatch {
    pub schema: Vec<Field>,
    pub columns: Vec<Column>,
    pub row_count: usize,
}

impl Field {
    pub fn new(name: String, data_type: DataType, nullable: bool) -> (r: Field)
        ensures
            r.name == name,
            r.data_type == data_type,
            r.nullable == nullable,
            r.metadata@.len() == 0,
    {
        Field { name, data_type, nullable, metadata: Vec::new() }
    }
}

impl RecordBatch {
    /// One column per field, each with one value per row.
    pub open spec fn aligned(&self) -> bool {
        &&& self.columns@.len() == self.schema@.len()
        &&& forall|i: int| 0 <= i < self.columns@.len() ==> #[trigger] self.columns@[i]@.len() == self.row_count
    }

    pub fn num_rows(&self) -> (r: usize)
        ensures
            r == self.row_count,
    {
        self.row_count
    }

    pub fn num_columns(&self) -> (r: usize)
        ensures
            r == self.columns@.len(),
    {
        self.columns.len()
    }
}

} // verus!
