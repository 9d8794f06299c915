//! The bulk load: records are made into rows and the rows are inserted, in
//! the order of the source, until a record gives no row or the store refuses
//! one. Either ends the load for good. Nothing is undone: the rows inserted
//! before stay in the table.

use vstd::prelude::*;
use crate::coerce::coerce_row;
use crate::coerce::coerced;
use crate::coerce::is_whole_valued;
use crate::coerce::lemma_whole_values_give_their_row;
use crate::coerce::whole_values;
use crate::coerce::FieldParseError;
use crate::records::csv_records;
use crate::records::parse_records;
use crate::records::record_view;
use crate::records::records_view;
use crate::records::Record;
use crate::row::BirthRow;
use crate::sql::insert_text;
use crate::store::all_taken;
use crate::store::answers;
use crate::store::insert_rows;
use crate::store::Refusal;

verus! {

/// Why a record of the source gives no row.
#[derive(Clone, Copy, Debug, PartialEq, Eq, Structural)]
pub enum RecordFault {
    /// The record could not be read from the source.
    Malformed,
    /// The record was read, and one of its fields is at fault.
    Field(FieldParseError),
}

/// Why a load ended early. Records are counted from 0, the header line not
/// among them.
#[derive(Debug)]
pub enum LoadError {
    /// Record `index` could not be read from the source.
    MalformedRecord { index: usize },
    /// A field of record `index` is at fault.
    FieldParse { index: usize, fault: FieldParseError },
    /// The store refused the row of record `index`.
    Store { index: usize, error: rusqlite::Error },
}

/// What a load does before it touches the store: the rows to insert, in
/// order, and the fault of the record after them, if the source does not end
/// there.
#[derive(Debug)]
pub struct LoadPlan {
    pub rows: Vec<BirthRow>,
    pub fault: Option<RecordFault>,
}

/// The fault of `record`, if it gives no row.
pub open spec fn fault_of(record: Option<Seq<Seq<char>>>) -> Option<RecordFault> {
    match record {
        None => Some(RecordFault::Malformed),
        Some(fields) => match coerced(fields) {
            Ok(_) => None,
            Err(fault) => Some(RecordFault::Field(fault)),
        },
    }
}

/// The row that `record` gives, for a record that gives one.
pub open spec fn row_of(record: Option<Seq<Seq<char>>>) -> BirthRow {
    coerced(record.unwrap()).unwrap()
}

/// How many records stand before the first that gives no row.
pub open spec fn sound_len(records: Seq<Option<Seq<Seq<char>>>>) -> nat
    decreases records.len(),
{
    if records.len() > 0 && fault_of(records[0]) is None {
        1 + sound_len(records.drop_first())
    } else {
        0
    }
}

/// The rows of the records that stand before the first that gives none.
pub open spec fn sound_rows(records: Seq<Option<Seq<Seq<char>>>>) -> Seq<BirthRow> {
    Seq::new(sound_len(records), |i: int| row_of(records[i]))
}

/// The fault of the first record that gives no row, if there is such a
/// record.
pub open spec fn first_fault(records: Seq<Option<Seq<Seq<char>>>>) -> Option<RecordFault> {
    if sound_len(records) < records.len() {
        fault_of(records[sound_len(records) as int])
    } else {
        None
    }
}

/// The error that reports `fault` for record `index`.
pub open spec fn record_error(index: usize, fault: RecordFault) -> LoadError {
    match fault {
        RecordFault::Malformed => LoadError::MalformedRecord { index },
        RecordFault::Field(fault) => LoadError::FieldParse { index, fault },
    }
}

/// How a load ends, given its plan's number of rows and fault and what came
/// of inserting the rows: a refusal by the store ends it at the refused row;
/// else the fault ends it at the record after the rows; else it succeeds
/// with the number of rows inserted.
pub open spec fn concluded(rows: usize, fault: Option<RecordFault>, inserted: Result<
    usize,
    Refusal,
>) -> Result<usize, LoadError> {
    match inserted {
        Err(refusal) => Err(LoadError::Store { index: refusal.index, error: refusal.error }),
        Ok(count) => match fault {
            Some(fault) => Err(record_error(rows, fault)),
            None => Ok(count),
        },
    }
}

/// Whether a load of `records` into the table `table` may end as `outcome`.
///
/// It succeeds only where every record gives a row, and then with their
/// number, the store having taken the insert for each row. It fails at the
/// first record that gives no row, with that record's fault, the store
/// having taken the insert for each row before; unless the store has refused
/// a row before that record, which ends the load at that row with the
/// store's answer to its insert, the store having taken the rows before it.
pub open spec fn may_end_as(
    table: Seq<char>,
    records: Seq<Option<Seq<Seq<char>>>>,
    outcome: Result<usize, LoadError>,
) -> bool {
    let rows = sound_rows(records);
    match outcome {
        Ok(count) => {
            &&& sound_len(records) == records.len()
            &&& count == records.len()
            &&& all_taken(insert_text(table), rows)
        },
        Err(LoadError::Store { index, error }) => {
            &&& index < sound_len(records)
            &&& all_taken(insert_text(table), rows.take(index as int))
            &&& answers(
                insert_text(table),
                rows[index as int].bound(),
                Err::<usize, rusqlite::Error>(error),
            )
        },
        Err(error) => {
            &&& sound_len(records) < records.len()
            &&& error == record_error(sound_len(records) as usize, first_fault(records).unwrap())
            &&& all_taken(insert_text(table), rows)
        },
    }
}

impl LoadPlan {
    /// Whether this is the plan for loading `records`: the rows of the
    /// records before the first that gives none, and the fault of that
    /// record.
    pub open spec fn is_plan_of(self, records: Seq<Option<Seq<Seq<char>>>>) -> bool {
        self.rows@ == sound_rows(records) && self.fault == first_fault(records)
    }
}

/// A position `n` before which every record gives a row, and which is the
/// end of `records` or holds one that gives none, is the number of records
/// that a load inserts.
pub proof fn lemma_sound_len(records: Seq<Option<Seq<Seq<char>>>>, n: int)
    requires
        0 <= n <= records.len(),
        forall|i: int| 0 <= i < n ==> fault_of(#[trigger] records[i]) is None,
        n < records.len() ==> fault_of(records[n]) is Some,
    ensures
        sound_len(records) == n,
    decreases records.len(),
{
    if n > 0 {
        let rest = records.drop_first();
        assert(fault_of(records[0]) is None);
        assert forall|i: int| 0 <= i < n - 1 implies fault_of(#[trigger] rest[i]) is None by {
            assert(rest[i] == records[i + 1]);
        }
        lemma_sound_len(rest, n - 1);
    }
}

/// The number of records that a load inserts is within the source, every
/// record before it gives a row, and the record at it, if there is one,
/// gives none.
pub proof fn lemma_sound_len_is_first_fault(records: Seq<Option<Seq<Seq<char>>>>)
    ensures
        sound_len(records) <= records.len(),
        forall|i: int| 0 <= i < sound_len(records) ==> fault_of(#[trigger] records[i]) is None,
        sound_len(records) < records.len() ==> fault_of(records[sound_len(records) as int])
            is Some,
    decreases records.len(),
{
    if records.len() > 0 && fault_of(records[0]) is None {
        let rest = records.drop_first();
        lemma_sound_len_is_first_fault(rest);
        assert forall|i: int| 0 <= i < sound_len(records) implies fault_of(#[trigger] records[i])
            is None by {
            if i > 0 {
                assert(records[i] == rest[i - 1]);
            }
        }
        if sound_len(records) < records.len() {
            assert(records[sound_len(records) as int] == rest[sound_len(rest) as int]);
        }
    }
}

/// A source in which every record gives a row is loaded whole: the rows to
/// insert are as many as the records and match them one by one, and the
/// load, if the store refuses none of them, succeeds with their number.
pub proof fn lemma_sound_source_loads_whole(records: Seq<Option<Seq<Seq<char>>>>)
    requires
        forall|i: int| 0 <= i < records.len() ==> fault_of(#[trigger] records[i]) is None,
    ensures
        sound_rows(records).len() == records.len(),
        forall|i: int| 0 <= i < records.len() ==> sound_rows(records)[i] == row_of(records[i]),
        first_fault(records) is None,
        forall|table: Seq<char>, outcome: Result<usize, LoadError>| #[trigger]
            may_end_as(table, records, outcome) ==> match outcome {
                Ok(count) => count == records.len(),
                Err(error) => error is Store,
            },
{
    lemma_sound_len(records, records.len() as int);
}

/// A source whose records are all whole-valued is loaded whole, and by
/// value: there is one row to insert for each record, in the order of the
/// source, and its columns are the values that the record writes.
pub proof fn lemma_whole_valued_source_loads_by_value(records: Seq<Option<Seq<Seq<char>>>>)
    requires
        forall|i: int|
            0 <= i < records.len() ==> (#[trigger] records[i]) is Some && is_whole_valued(
                records[i].unwrap(),
            ),
    ensures
        sound_rows(records).len() == records.len(),
        first_fault(records) is None,
        forall|i: int|
            0 <= i < records.len() ==> (#[trigger] sound_rows(records)[i]).columns()
                == whole_values(records[i].unwrap()),
{
    assert forall|i: int| 0 <= i < records.len() implies fault_of(#[trigger] records[i])
        is None by {
        lemma_whole_values_give_their_row(records[i].unwrap());
    }
    lemma_sound_len(records, records.len() as int);
    assert forall|i: int| 0 <= i < records.len() implies (#[trigger] sound_rows(
        records,
    )[i]).columns() == whole_values(records[i].unwrap()) by {
        lemma_whole_values_give_their_row(records[i].unwrap());
    }
}

/// A record that gives no row fails the load: no outcome is a success, the
/// rows that the load has for the store are those of records before it, and
/// the load ends at the first such record or, where the store refuses a
/// row, before it.
pub proof fn lemma_fault_fails_load(
    table: Seq<char>,
    records: Seq<Option<Seq<Seq<char>>>>,
    at: int,
    outcome: Result<usize, LoadError>,
)
    requires
        0 <= at < records.len(),
        fault_of(records[at]) is Some,
        may_end_as(table, records, outcome),
    ensures
        outcome is Err,
        sound_rows(records).len() <= at,
        match outcome {
            Ok(_) => false,
            Err(LoadError::Store { index, error }) => index < at,
            Err(LoadError::MalformedRecord { index }) => index <= at,
            Err(LoadError::FieldParse { index, fault }) => index <= at,
        },
{
    lemma_sound_len_is_first_fault(records);
    if sound_len(records) > at {
        assert(fault_of(records[at]) is None);
    }
}

/// The plan for loading `records`.
pub fn plan_load(records: &Vec<Record>) -> (plan: LoadPlan)
    ensures
        plan.is_plan_of(records_view(records@)),
{
    let ghost texts = records_view(records@);
    let mut rows: Vec<BirthRow> = Vec::new();
    let mut fault: Option<RecordFault> = None;
    let mut index: usize = 0;
    while index < records.len() && fault.is_none()
        invariant
            index <= records@.len(),
            texts == records_view(records@),
            fault is None ==> rows@.len() == index,
            fault is Some ==> rows@.len() + 1 == index,
            forall|i: int| 0 <= i < rows@.len() ==> fault_of(#[trigger] texts[i]) is None,
            forall|i: int| 0 <= i < rows@.len() ==> rows@[i] == row_of(texts[i]),
            fault is Some ==> fault == fault_of(texts[rows@.len() as int]),
        decreases records@.len() - index,
    {
        assert(texts[index as int] == record_view(records@[index as int]));
        match &records[index] {
            None => {
                fault = Some(RecordFault::Malformed);
            },
            Some(fields) => match coerce_row(fields) {
                Ok(row) => {
                    rows.push(row);
                },
                Err(at_fault) => {
                    fault = Some(RecordFault::Field(at_fault));
                },
            },
        }
        index += 1;
    }
    proof {
        lemma_sound_len(texts, rows@.len() as int);
        assert(rows@ =~= sound_rows(texts));
    }
    LoadPlan { rows, fault }
}

/// How the load planned as `plan` ends, once `inserted` has come back from
/// inserting its rows.
pub fn conclude(plan: &LoadPlan, inserted: Result<usize, Refusal>) -> (r: Result<usize, LoadError>)
    ensures
        r == concluded(plan.rows@.len() as usize, plan.fault, inserted),
{
    match inserted {
        Err(refusal) => Err(LoadError::Store { index: refusal.index, error: refusal.error }),
        Ok(count) => match plan.fault {
            Some(RecordFault::Malformed) => Err(
                LoadError::MalformedRecord { index: plan.rows.len() },
            ),
            Some(RecordFault::Field(fault)) => Err(
                LoadError::FieldParse { index: plan.rows.len(), fault },
            ),
            None => Ok(count),
        },
    }
}

/// Loads `records` into the table `table_name`: makes rows of them and
/// inserts the rows, in order.
pub fn load_records(conn: &rusqlite::Connection, table_name: &str, records: &Vec<Record>) -> (r:
    Result<usize, LoadError>)
    ensures
        may_end_as(table_name@, records_view(records@), r),
{
    let plan = plan_load(records);
    let inserted = insert_rows(conn, table_name, &plan.rows);
    proof {
        lemma_sound_len_is_first_fault(records_view(records@));
    }
    conclude(&plan, inserted)
}

/// Loads the delimited text `data` into the table `table_name`. The first
/// line of `data` is the header line; each line after it is one record of
/// five fields in schema order.
pub fn load_data_from_csv(conn: &rusqlite::Connection, table_name: &str, data: &[u8]) -> (r:
    Result<usize, LoadError>)
    ensures
        may_end_as(table_name@, csv_records(data@), r),
{
    let records = parse_records(data);
    load_records(conn, table_name, &records)
}

} // verus!
