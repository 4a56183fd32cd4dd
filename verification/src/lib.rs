//! A small in-process SQL engine: tables and tuples in memory, an
//! expression evaluator, sequential and parallel table managers with
//! the same observable contract, and a deterministic binary codec for
//! persistence. Statements arrive as the tree in [`sql`]; results
//! leave as rendered text.

use vstd::prelude::*;

pub mod codec;
pub mod column_info;
pub mod database;
pub mod error;
pub mod executor;
pub mod expr;
pub mod interface;
pub mod laws;
pub mod ordering;
pub mod par_manager;
pub mod render;
pub mod seq_manager;
pub mod sql;
pub mod table;
pub mod transitions;
pub mod value;

pub use column_info::ColumnInfo;
pub use column_info::ColumnTypeSpecific;
pub use database::Database;
pub use error::DBError;
pub use error::DBResult;
pub use error::DBSingleError;
pub use executor::SQLExecutor;
pub use interface::SQLExecConfig;
pub use par_manager::ParallelTableManager;
pub use seq_manager::SequentialTableManager;
pub use table::Table;
pub use value::Value;
pub use value::ValueNotNull;

verus! {

} // verus!
