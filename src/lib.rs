//! Type-faithful decoding of vendor SQL rows into columnar batches, and the
//! statements and decisions that provision mirrored tables and run vector
//! searches over them.
//!
//! - `numeric`: PostgreSQL's binary NUMERIC format.
//! - `pg_types`, `pg_text`, `postgres`: PostgreSQL column types and rows
//!   decoded into a record batch.
//! - `snowflake`: Snowflake TIMESTAMP_NTZ columns brought to millisecond
//!   timestamps.
//! - `columnar`: the canonical types, values and record batches.
//! - `provisioning`, `options`: SQLite statements and table options.
//! - `pools`: the settings of connection pools and connectors.
//! - `vector_search`: the per-table decisions of a nearest-neighbour search.
//! - `util`: byte counts and numbers for people to read.

use vstd::prelude::*;

pub mod columnar;
pub mod numeric;
pub mod options;
pub mod pg_text;
pub mod pg_types;
pub mod pools;
pub mod postgres;
pub mod provisioning;
pub mod snowflake;
pub mod util;
pub mod vector_search;

verus! {

} // verus!
