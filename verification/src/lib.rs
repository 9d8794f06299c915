//! A small layer over an embedded SQL store for one table of fixed schema:
//! five integer columns, `year`, `month`, `date_of_month`, `day_of_week` and
//! `births`.
//!
//! The table is created and dropped by name, filled from delimited text,
//! read by a query and changed by an update. The store does all the work on
//! the data; this crate words the statements, reads the text into typed
//! rows, and decides how a load goes on and ends.
//!
//! Table names and the clauses of an update go into the statements as they
//! are given. They are SQL that the caller vouches for.

pub mod coerce;
pub mod decimal;
pub mod load;
pub mod number;
pub mod numeral;
pub mod records;
pub mod rounding;
pub mod row;
pub mod sql;
pub mod store;
pub mod text;

pub use crate::load::load_data_from_csv;
pub use crate::store::create_table;
pub use crate::store::drop_table;
pub use crate::store::query_exec;
pub use crate::store::update_table;
