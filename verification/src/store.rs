//! The store: an embedded SQL database, reached through a connection that
//! the caller owns.
//!
//! Nothing here models what the store holds. What a statement does, and
//! whether it succeeds, is the store's to decide; a failure comes back to the
//! caller as the store reported it. The contracts say which text, with which
//! values bound, the store was asked, and that what is returned is what the
//! store answered to it.

use vstd::prelude::*;
use crate::row::BirthRow;
use crate::sql::create_table_sql;
use crate::sql::create_table_text;
use crate::sql::drop_table_sql;
use crate::sql::drop_table_text;
use crate::sql::insert_sql;
use crate::sql::insert_text;
use crate::sql::update_sql;
use crate::sql::update_text;

verus! {

/// `rusqlite::Connection`, the handle to the store. It is carried through
/// and never looked into.
#[verifier::external_type_specification]
#[verifier::external_body]
pub struct ExConnection(rusqlite::Connection);

/// `rusqlite::Error`, what the store reports when a call fails.
#[verifier::external_type_specification]
#[verifier::external_body]
pub struct ExStoreError(rusqlite::Error);

/// `rusqlite::Statement`, a statement that the store has compiled.
#[verifier::external_type_specification]
#[verifier::external_body]
pub struct ExStatement<'conn>(rusqlite::Statement<'conn>);

/// `rusqlite::Rows`, the cursor over the result of a query.
#[verifier::external_type_specification]
#[verifier::external_body]
pub struct ExRows<'stmt>(rusqlite::Rows<'stmt>);

/// `rusqlite::Row`, the result row that a cursor stands on.
#[verifier::external_type_specification]
#[verifier::external_body]
pub struct ExResultRow<'stmt>(rusqlite::Row<'stmt>);

/// What the columns of the result row `row` hold, column by column: for
/// each the 32-bit integer in it, or `None` where it holds a value of
/// another type or an integer outside the 32-bit range.
pub uninterp spec fn integer_columns(row: rusqlite::Row<'_>) -> Seq<Option<int>>;

/// Whether `outcome` is an answer of the store to the statement `sql` with
/// `values` bound in order to its parameters. Nothing is known of this
/// relation but that every outcome of such a call is in it.
pub uninterp spec fn answers(
    sql: Seq<char>,
    values: Seq<i32>,
    outcome: Result<usize, rusqlite::Error>,
) -> bool;

/// The text that `statement` was compiled from.
pub uninterp spec fn query_of(statement: rusqlite::Statement<'_>) -> Seq<char>;

/// What the cursor `rows` has yet to give, step by step: for a result row
/// its columns, as `integer_columns` has them, and `None` for a step that
/// fails.
pub uninterp spec fn to_come(rows: rusqlite::Rows<'_>) -> Seq<Option<Seq<Option<int>>>>;

/// Whether `result` is what a cursor over the query `sql` gives, step by
/// step. Nothing is known of this relation but that what every such cursor
/// gives is in it.
pub uninterp spec fn is_result_of(sql: Seq<char>, result: Seq<Option<Seq<Option<int>>>>) -> bool;

/// Whether the store refuses to run the query `sql`, with `error`: it fails
/// to compile the text or to open a cursor over it. Nothing is known of this
/// relation but that every such failure is in it.
pub uninterp spec fn refuses(sql: Seq<char>, error: rusqlite::Error) -> bool;

/// Calls `rusqlite::Connection::execute`: the store compiles `sql` and runs
/// it, with `values` bound in order to its parameters through
/// `rusqlite::params_from_iter`. The outcome is the store's answer to that
/// text with those values; nothing else is claimed of it.
#[verifier::external_body]
fn execute(conn: &rusqlite::Connection, sql: &str, values: &Vec<i32>) -> (outcome: Result<
    usize,
    rusqlite::Error,
>)
    ensures
        answers(sql@, values@, outcome),
{
    conn.execute(sql, rusqlite::params_from_iter(values))
}

/// Calls `rusqlite::Connection::prepare`: the store compiles `sql`. Where
/// it succeeds, the statement is that of `sql`; where it fails, the store
/// refuses `sql` with that failure.
#[verifier::external_body]
fn prepare<'conn>(conn: &'conn rusqlite::Connection, sql: &str) -> (outcome: Result<
    rusqlite::Statement<'conn>,
    rusqlite::Error,
>)
    ensures
        outcome matches Ok(statement) ==> query_of(statement) == sql@,
        outcome matches Err(error) ==> refuses(sql@, error),
{
    conn.prepare(sql)
}

/// Calls `rusqlite::Statement::query` with no parameters, which gives the
/// cursor over the statement's result. Where it succeeds, what the cursor
/// has yet to give is a result of the statement's text; where it fails, the
/// store refuses that text with that failure.
#[verifier::external_body]
fn open_cursor<'stmt>(statement: &'stmt mut rusqlite::Statement<'_>) -> (outcome: Result<
    rusqlite::Rows<'stmt>,
    rusqlite::Error,
>)
    ensures
        outcome matches Ok(rows) ==> is_result_of(query_of(*old(statement)), to_come(rows)),
        outcome matches Err(error) ==> refuses(query_of(*old(statement)), error),
{
    statement.query(())
}

/// Calls `rusqlite::Rows::next`, which moves the cursor on. At the end it
/// gives `Ok(None)` and stays at the end. Before the end it takes the next
/// step off the cursor: a result row, which it gives, or a failure.
#[verifier::external_body]
fn advance<'a, 'stmt>(rows: &'a mut rusqlite::Rows<'stmt>) -> (outcome: Result<
    Option<&'a rusqlite::Row<'stmt>>,
    rusqlite::Error,
>)
    ensures
        to_come(*old(rows)).len() == 0 ==> outcome is Ok && outcome.unwrap() is None && to_come(
            *final(rows),
        ).len() == 0,
        to_come(*old(rows)).len() > 0 ==> to_come(*final(rows)) == to_come(
            *old(rows),
        ).drop_first(),
        to_come(*old(rows)).len() > 0 ==> match to_come(*old(rows))[0] {
            Some(columns) => (outcome matches Ok(Some(row)) && integer_columns(*row) == columns),
            None => outcome is Err,
        },
{
    rows.next()
}

/// Calls `rusqlite::Row::get` for a 32-bit integer. It gives the integer of
/// column `index` where the row holds one there, and fails otherwise.
#[verifier::external_body]
fn column(row: &rusqlite::Row<'_>, index: usize) -> (outcome: Result<i32, rusqlite::Error>)
    ensures
        match outcome {
            Ok(v) => index < integer_columns(*row).len() && integer_columns(*row)[index as int]
                == Some(v as int),
            Err(_) => index >= integer_columns(*row).len() || integer_columns(*row)[index as int]
                is None,
        },
{
    row.get(index)
}

/// The outcome of a statement that changes the schema, as it is handed on:
/// the count that the store reports for it means nothing and is dropped, a
/// failure is kept as it is.
pub open spec fn count_dropped(outcome: Result<usize, rusqlite::Error>) -> Result<
    (),
    rusqlite::Error,
> {
    match outcome {
        Ok(_) => Ok(()),
        Err(e) => Err(e),
    }
}

/// Whether the store took the statement `sql` with `values` bound: it
/// answered with a count.
pub open spec fn taken(sql: Seq<char>, values: Seq<i32>) -> bool {
    exists|count: usize| #[trigger] answers(sql, values, Ok::<usize, rusqlite::Error>(count))
}

/// Whether the store took the insert `sql` for each of `rows`.
pub open spec fn all_taken(sql: Seq<char>, rows: Seq<BirthRow>) -> bool {
    forall|i: int| 0 <= i < rows.len() ==> taken(sql, (#[trigger] rows[i]).bound())
}

/// The 32-bit integer in column `index` of `columns`, if there is that
/// column and it holds one.
pub open spec fn column_value(columns: Seq<Option<int>>, index: int) -> Option<int> {
    if 0 <= index < columns.len() {
        columns[index]
    } else {
        None
    }
}

/// The columns of a result row read as a row of the schema, by position:
/// there is one where each of the first five columns holds a 32-bit integer.
/// Columns after the fifth are not looked at.
pub open spec fn typed(columns: Seq<Option<int>>) -> Option<BirthRow> {
    if column_value(columns, 0) is Some && column_value(columns, 1) is Some && column_value(
        columns,
        2,
    ) is Some && column_value(columns, 3) is Some && column_value(columns, 4) is Some {
        Some(
            BirthRow {
                year: column_value(columns, 0).unwrap() as i32,
                month: column_value(columns, 1).unwrap() as i32,
                date_of_month: column_value(columns, 2).unwrap() as i32,
                day_of_week: column_value(columns, 3).unwrap() as i32,
                births: column_value(columns, 4).unwrap() as i32,
            },
        )
    } else {
        None
    }
}

/// The result row `row` read as a row of the schema.
pub open spec fn decoded(row: rusqlite::Row<'_>) -> Option<BirthRow> {
    typed(integer_columns(row))
}

/// One step of a cursor read as a row of the schema: there is none for a
/// step that fails and for a result row that does not read as one.
pub open spec fn typed_step(step: Option<Seq<Option<int>>>) -> Option<BirthRow> {
    match step {
        Some(columns) => typed(columns),
        None => None,
    }
}

/// Whether `rows` are the first steps of `result`, each read as a row of the
/// schema, in the order of `result`.
pub open spec fn gathered_from(rows: Seq<BirthRow>, result: Seq<Option<Seq<Option<int>>>>) -> bool {
    &&& rows.len() <= result.len()
    &&& forall|i: int| 0 <= i < rows.len() ==> typed_step(#[trigger] result[i]) == Some(rows[i])
}

/// Whether gathering the steps `result` ends with `rows`, and with a
/// failure or without. The rows are the first steps of `result`, read in
/// order. Without a failure they are all of its steps, or as many as a
/// vector holds; with a failure the step after them fails or does not read
/// as a row.
pub open spec fn gathers(
    result: Seq<Option<Seq<Option<int>>>>,
    rows: Seq<BirthRow>,
    failed: bool,
) -> bool {
    &&& gathered_from(rows, result)
    &&& if failed {
        rows.len() < result.len() && typed_step(result[rows.len() as int]) is None
    } else {
        rows.len() == result.len() || rows.len() == usize::MAX
    }
}

/// Whether `rows` are all that the query `sql` gave: there is a result of
/// `sql` whose steps, in order, read as `rows`, each step once. A result of
/// more rows than a vector holds is cut off at that number.
pub open spec fn is_whole_result(sql: Seq<char>, rows: Seq<BirthRow>) -> bool {
    exists|result: Seq<Option<Seq<Option<int>>>>| #[trigger]
        is_result_of(sql, result) && gathers(result, rows, false)
}

/// Whether the query `sql` gave `rows` and then a step that reads as no
/// row: there is a result of `sql` whose first steps read as `rows`, in
/// order, and whose next step fails or does not read as a row.
pub open spec fn is_broken_result(sql: Seq<char>, rows: Seq<BirthRow>) -> bool {
    exists|result: Seq<Option<Seq<Option<int>>>>| #[trigger]
        is_result_of(sql, result) && gathers(result, rows, true)
}

/// The outcome of a statement that changes the schema as it is handed on,
/// without the count.
pub fn without_count(outcome: Result<usize, rusqlite::Error>) -> (r: Result<(), rusqlite::Error>)
    ensures
        r == count_dropped(outcome),
{
    match outcome {
        Ok(_) => Ok(()),
        Err(e) => Err(e),
    }
}

/// Creates the table `table_name` with the fixed schema, unless the store
/// has it already. The store is asked the text of `create_table_sql`, with
/// nothing bound, and its answer is returned without the count.
pub fn create_table(conn: &rusqlite::Connection, table_name: &str) -> (r: Result<
    (),
    rusqlite::Error,
>)
    ensures
        exists|outcome: Result<usize, rusqlite::Error>| #[trigger]
            answers(create_table_text(table_name@), Seq::<i32>::empty(), outcome) && r
                == count_dropped(outcome),
{
    let sql = create_table_sql(table_name);
    let outcome = execute(conn, sql.as_str(), &Vec::new());
    without_count(outcome)
}

/// Drops the table `table_name`, if the store has it. The store is asked
/// the text of `drop_table_sql`, with nothing bound, and its answer is
/// returned without the count.
pub fn drop_table(conn: &rusqlite::Connection, table_name: &str) -> (r: Result<
    (),
    rusqlite::Error,
>)
    ensures
        exists|outcome: Result<usize, rusqlite::Error>| #[trigger]
            answers(drop_table_text(table_name@), Seq::<i32>::empty(), outcome) && r
                == count_dropped(outcome),
{
    let sql = drop_table_sql(table_name);
    let outcome = execute(conn, sql.as_str(), &Vec::new());
    without_count(outcome)
}

/// Updates the rows of `table_name` that meet `condition` as `set_clause`
/// says. The store is asked the text of `update_sql`, with nothing bound,
/// and its answer is returned: the number of rows that it reports as
/// changed, or its failure.
pub fn update_table(
    conn: &rusqlite::Connection,
    table_name: &str,
    set_clause: &str,
    condition: &str,
) -> (r: Result<usize, rusqlite::Error>)
    ensures
        answers(update_text(table_name@, set_clause@, condition@), Seq::<i32>::empty(), r),
{
    let sql = update_sql(table_name, set_clause, condition);
    execute(conn, sql.as_str(), &Vec::new())
}

/// A row that the store refused: its position among the rows handed over,
/// counted from 0, and what the store reported.
#[derive(Debug)]
pub struct Refusal {
    pub index: usize,
    pub error: rusqlite::Error,
}

/// Inserts `rows` into `table_name` one by one, in order, each with its
/// values bound to the placeholders of `insert_sql`, and returns how many
/// were inserted. It stops at the first row that the store refuses, and
/// reports that row's position and the store's answer to it; the rows
/// before it were taken and stay inserted.
pub fn insert_rows(conn: &rusqlite::Connection, table_name: &str, rows: &Vec<BirthRow>) -> (r:
    Result<usize, Refusal>)
    ensures
        match r {
            Ok(count) => count == rows@.len() && all_taken(insert_text(table_name@), rows@),
            Err(refusal) => {
                &&& refusal.index < rows@.len()
                &&& all_taken(insert_text(table_name@), rows@.take(refusal.index as int))
                &&& answers(
                    insert_text(table_name@),
                    rows@[refusal.index as int].bound(),
                    Err::<usize, rusqlite::Error>(refusal.error),
                )
            },
        },
{
    let sql = insert_sql(table_name);
    let mut index: usize = 0;
    while index < rows.len()
        invariant
            index <= rows@.len(),
            sql@ == insert_text(table_name@),
            all_taken(sql@, rows@.take(index as int)),
        decreases rows@.len() - index,
    {
        match execute(conn, sql.as_str(), &rows[index].values()) {
            Ok(count) => {
                assert(taken(sql@, rows@[index as int].bound()));
            },
            Err(error) => {
                return Err(Refusal { index, error });
            },
        }
        index += 1;
    }
    assert(rows@.take(index as int) == rows@);
    Ok(index)
}

/// Reads a result row as a row of the schema. It fails where one of the
/// first five columns holds no 32-bit integer, with what the store reports
/// for the first such column.
pub fn decode_row(row: &rusqlite::Row<'_>) -> (r: Result<BirthRow, rusqlite::Error>)
    ensures
        match decoded(*row) {
            Some(typed) => r == Ok::<BirthRow, rusqlite::Error>(typed),
            None => r is Err,
        },
{
    let year = column(row, 0)?;
    let month = column(row, 1)?;
    let date_of_month = column(row, 2)?;
    let day_of_week = column(row, 3)?;
    let births = column(row, 4)?;
    Ok(BirthRow { year, month, date_of_month, day_of_week, births })
}

/// What a query makes of one step of its cursor. A result row that reads as
/// a row of the schema is added to `found`, and the query goes on. At the
/// cursor's end the query ends. A failure of the step, or a result row that
/// does not read, ends the query with that failure. `found` changes in the
/// first case only.
pub fn gather_step(
    found: &mut Vec<BirthRow>,
    step: Result<Option<&rusqlite::Row<'_>>, rusqlite::Error>,
) -> (r: Result<bool, rusqlite::Error>)
    ensures
        match step {
            Ok(Some(row)) => match decoded(*row) {
                Some(typed) => r == Ok::<bool, rusqlite::Error>(true) && final(found)@ == old(
                    found,
                )@.push(typed),
                None => r is Err && final(found)@ == old(found)@,
            },
            Ok(None) => r == Ok::<bool, rusqlite::Error>(false) && final(found)@ == old(found)@,
            Err(e) => r == Err::<bool, rusqlite::Error>(e) && final(found)@ == old(found)@,
        },
{
    match step {
        Ok(Some(row)) => {
            let typed = decode_row(row)?;
            found.push(typed);
            Ok(true)
        },
        Ok(None) => Ok(false),
        Err(e) => Err(e),
    }
}

/// The rows that a query gave, and the failure that ended it, if one did.
#[derive(Debug)]
pub struct Gathered {
    pub rows: Vec<BirthRow>,
    pub failure: Option<rusqlite::Error>,
}

/// Gathers the result rows that the cursor `rows` has yet to give, in the
/// order in which it gives them, each once, until the cursor ends or a step
/// fails or gives a row that does not read as five integers. The failure is
/// returned beside the rows gathered before it. The cursor is left after the
/// last step taken: after the rows gathered, and after the step that
/// failed.
pub fn gather_rows(rows: &mut rusqlite::Rows<'_>) -> (gathered: Gathered)
    ensures
        gathers(to_come(*old(rows)), gathered.rows@, gathered.failure is Some),
        to_come(*final(rows)) == to_come(*old(rows)).skip(
            gathered.rows@.len() + if gathered.failure is Some {
                1int
            } else {
                0int
            },
        ),
{
    let ghost result = to_come(*rows);
    let mut found: Vec<BirthRow> = Vec::new();
    assert(result.skip(0) == result);
    while found.len() < usize::MAX
        invariant
            result == to_come(*old(rows)),
            gathered_from(found@, result),
            to_come(*rows) == result.skip(found@.len() as int),
        decreases usize::MAX - found.len(),
    {
        let ghost before = to_come(*rows);
        let ghost at = found@.len() as int;
        let step = advance(rows);
        match gather_step(&mut found, step) {
            Ok(true) => {
                proof {
                    assert(before[0] == result[at]);
                    assert(before.drop_first() == result.skip(at + 1));
                }
            },
            Ok(false) => {
                return Gathered { rows: found, failure: None };
            },
            Err(e) => {
                proof {
                    assert(before[0] == result[at]);
                    assert(before.drop_first() == result.skip(at + 1));
                }
                return Gathered { rows: found, failure: Some(e) };
            },
        }
    }
    Gathered { rows: found, failure: None }
}

/// Runs the query `query_string` and gathers its result rows in the order
/// in which the store gives them, each once. The first failure ends the
/// query and is returned beside the rows gathered before it. Where the store
/// refuses the statement there are no rows. Otherwise the rows are those
/// before a step of the cursor that fails or gives a row that does not read
/// as five integers.
pub fn query_gather(conn: &rusqlite::Connection, query_string: &str) -> (gathered: Gathered)
    ensures
        gathered.failure is None ==> is_whole_result(query_string@, gathered.rows@),
        gathered.failure matches Some(error) ==> (gathered.rows@.len() == 0 && refuses(
            query_string@,
            error,
        )) || is_broken_result(query_string@, gathered.rows@),
{
    let mut statement = match prepare(conn, query_string) {
        Ok(statement) => statement,
        Err(e) => {
            return Gathered { rows: Vec::new(), failure: Some(e) };
        },
    };
    let mut rows = match open_cursor(&mut statement) {
        Ok(rows) => rows,
        Err(e) => {
            return Gathered { rows: Vec::new(), failure: Some(e) };
        },
    };
    let ghost result = to_come(rows);
    let gathered = gather_rows(&mut rows);
    assert(is_result_of(query_string@, result));
    gathered
}

/// Runs the query `query_string` and returns its result rows in the order
/// in which the store gives them, each once. It fails where the store
/// refuses the statement, and where a step of the cursor fails or gives a
/// row that does not read as five integers; `query_gather` returns the rows
/// before such a step as well. A result of more rows than a vector holds is
/// cut off at that number.
pub fn query_exec(conn: &rusqlite::Connection, query_string: &str) -> (r: Result<
    Vec<BirthRow>,
    rusqlite::Error,
>)
    ensures
        r matches Ok(found) ==> is_whole_result(query_string@, found@),
        r matches Err(error) ==> refuses(query_string@, error) || exists|rows: Seq<BirthRow>|
            is_broken_result(query_string@, rows),
{
    let gathered = query_gather(conn, query_string);
    match gathered.failure {
        None => Ok(gathered.rows),
        Some(e) => {
            assert(refuses(query_string@, e) || is_broken_result(query_string@, gathered.rows@));
            Err(e)
        },
    }
}

} // verus!
