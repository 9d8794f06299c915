//! The text of the statements that the library hands to the store.
//!
//! Table names and the two clauses of an update are put into the text as
//! they are given, with no quoting and no check: they are SQL fragments that
//! the caller vouches for. Row values never enter the text: the insert
//! statement carries five placeholders, and the values are bound to them.

use vstd::prelude::*;
use vstd::string::StringExecFns;

verus! {

/// What stands before the table name in the statement that creates a table.
pub const CREATE_HEAD: &'static str = "CREATE TABLE IF NOT EXISTS ";

/// The fixed schema, which follows the table name.
pub const CREATE_TAIL: &'static str =
    " (year INTEGER NOT NULL, month INTEGER NOT NULL, date_of_month INTEGER NOT NULL, day_of_week INTEGER NOT NULL, births INTEGER NOT NULL)";

/// What stands before the table name in the statement that drops a table.
pub const DROP_HEAD: &'static str = "DROP TABLE IF EXISTS ";

/// What stands before the table name in the statement that inserts a row.
pub const INSERT_HEAD: &'static str = "INSERT INTO ";

/// The column list and the five placeholders, which follow the table name.
pub const INSERT_TAIL: &'static str =
    " (year, month, date_of_month, day_of_week, births) VALUES (?, ?, ?, ?, ?)";

/// What stands before the table name in an update.
pub const UPDATE_HEAD: &'static str = "UPDATE ";

/// What stands between the table name and the assignments of an update.
pub const UPDATE_SET: &'static str = " SET ";

/// What stands between the assignments and the condition of an update.
pub const UPDATE_WHERE: &'static str = " WHERE ";

/// What ends an update.
pub const UPDATE_END: &'static str = ";";

/// The statement that creates the table `name` with the fixed schema, unless
/// it exists.
pub open spec fn create_table_text(name: Seq<char>) -> Seq<char> {
    CREATE_HEAD@ + name + CREATE_TAIL@
}

/// The statement that drops the table `name`, if it exists.
pub open spec fn drop_table_text(name: Seq<char>) -> Seq<char> {
    DROP_HEAD@ + name
}

/// The statement that inserts one row into the table `name`, its five values
/// to be bound in schema order.
pub open spec fn insert_text(name: Seq<char>) -> Seq<char> {
    INSERT_HEAD@ + name + INSERT_TAIL@
}

/// The statement that applies the assignments `set_clause` to the rows of
/// the table `name` that meet `condition`.
pub open spec fn update_text(name: Seq<char>, set_clause: Seq<char>, condition: Seq<char>) -> Seq<
    char,
> {
    UPDATE_HEAD@ + name + UPDATE_SET@ + set_clause + UPDATE_WHERE@ + condition + UPDATE_END@
}

/// The statement that creates the table `table_name`.
pub fn create_table_sql(table_name: &str) -> (sql: String)
    ensures
        sql@ == create_table_text(table_name@),
{
    let mut sql = String::from_str(CREATE_HEAD);
    sql.append(table_name);
    sql.append(CREATE_TAIL);
    sql
}

/// The statement that drops the table `table_name`.
pub fn drop_table_sql(table_name: &str) -> (sql: String)
    ensures
        sql@ == drop_table_text(table_name@),
{
    let mut sql = String::from_str(DROP_HEAD);
    sql.append(table_name);
    sql
}

/// The statement that inserts one row into the table `table_name`.
pub fn insert_sql(table_name: &str) -> (sql: String)
    ensures
        sql@ == insert_text(table_name@),
{
    let mut sql = String::from_str(INSERT_HEAD);
    sql.append(table_name);
    sql.append(INSERT_TAIL);
    sql
}

/// The statement that updates the rows of the table `table_name`.
pub fn update_sql(table_name: &str, set_clause: &str, condition: &str) -> (sql: String)
    ensures
        sql@ == update_text(table_name@, set_clause@, condition@),
{
    let mut sql = String::from_str(UPDATE_HEAD);
    sql.append(table_name);
    sql.append(UPDATE_SET);
    sql.append(set_clause);
    sql.append(UPDATE_WHERE);
    sql.append(condition);
    sql.append(UPDATE_END);
    sql
}

} // verus!
