//! From delimited text to records: the fields of each line after the header
//! line, as the `csv` crate reads them.
//!
//! The grammar of the text is `csv`'s, with its default settings, and is
//! not stated here. What `csv` reads from given bytes has a name,
//! `csv_records`, and the reader and the record that carry the reading are
//! spoken of through what they hold.

use vstd::prelude::*;
use vstd::string::StringExecFns;

verus! {

/// `csv::Reader`, which reads records from a source of bytes.
#[verifier::external_type_specification]
#[verifier::external_body]
#[verifier::reject_recursive_types(R)]
pub struct ExReader<R>(csv::Reader<R>);

/// `csv::StringRecord`, one record as text, field by field.
#[verifier::external_type_specification]
#[verifier::external_body]
pub struct ExStringRecord(csv::StringRecord);

/// One item of the source: the fields of a record, or `None` where the
/// source holds a record that cannot be read.
pub type Record = Option<Vec<String>>;

/// What `csv` reads from the bytes `data` with its default settings, item by
/// item: the first record is taken as the header and left out; each record
/// after it gives its fields, or `None` where reading it fails, as it does
/// for a record that is not UTF-8 or has another number of fields than the
/// first record has.
pub uninterp spec fn csv_records(data: Seq<u8>) -> Seq<Option<Seq<Seq<char>>>>;

/// What `reader` has yet to give, item by item.
pub uninterp spec fn unread(reader: csv::Reader<&[u8]>) -> Seq<Option<Seq<Seq<char>>>>;

/// The fields that `record` holds.
pub uninterp spec fn fields_of(record: csv::StringRecord) -> Seq<Seq<char>>;

/// The fields of a record as text.
pub open spec fn record_view(record: Record) -> Option<Seq<Seq<char>>> {
    match record {
        Some(fields) => Some(fields.deep_view()),
        None => None,
    }
}

/// The records of a source as text.
pub open spec fn records_view(records: Seq<Record>) -> Seq<Option<Seq<Seq<char>>>> {
    Seq::new(records.len(), |i: int| record_view(records[i]))
}

/// Calls `csv::Reader::from_reader`, which makes a reader with the default
/// settings. The reader has yet to give all that `csv` reads from `data`.
#[verifier::external_body]
fn open_reader<'a>(data: &'a [u8]) -> (reader: csv::Reader<&'a [u8]>)
    ensures
        unread(reader) == csv_records(data@),
{
    csv::Reader::from_reader(data)
}

/// Calls `csv::StringRecord::new`, which makes a record to read into.
/// Nothing is claimed of it.
#[verifier::external_body]
fn empty_record() -> (record: csv::StringRecord) {
    csv::StringRecord::new()
}

/// Calls `csv::Reader::read_record`, which reads the next record into
/// `record`, and keeps of its result whether it is an error. At the end of
/// the source it gives `Some(false)`. Before the end it takes the next item
/// off the reader: for a record it gives `Some(true)` and `record` then
/// holds the record's fields, for an error it gives `None`.
#[verifier::external_body]
fn read_record(reader: &mut csv::Reader<&[u8]>, record: &mut csv::StringRecord) -> (outcome:
    Option<bool>)
    ensures
        unread(*old(reader)).len() == 0 ==> outcome == Some(false) && unread(*final(reader)).len()
            == 0,
        unread(*old(reader)).len() > 0 ==> unread(*final(reader)) == unread(
            *old(reader),
        ).drop_first(),
        unread(*old(reader)).len() > 0 ==> match unread(*old(reader))[0] {
            Some(fields) => outcome == Some(true) && fields_of(*final(record)) == fields,
            None => outcome is None,
        },
{
    reader.read_record(record).ok()
}

/// Calls `csv::StringRecord::get`, which gives the field at `index`, or
/// `None` where the record has no such field.
#[verifier::external_body]
fn field<'a>(record: &'a csv::StringRecord, index: usize) -> (text: Option<&'a str>)
    ensures
        match text {
            Some(s) => index < fields_of(*record).len() && s@ == fields_of(*record)[index as int],
            None => index >= fields_of(*record).len(),
        },
{
    record.get(index)
}

/// The fields of `record` as strings.
fn record_fields(record: &csv::StringRecord) -> (fields: Vec<String>)
    ensures
        fields.deep_view() == fields_of(*record),
{
    let mut fields: Vec<String> = Vec::new();
    let mut done = false;
    while !done
        invariant
            fields@.len() <= fields_of(*record).len(),
            done ==> fields@.len() == fields_of(*record).len(),
            forall|i: int| 0 <= i < fields@.len() ==> (#[trigger] fields@[i])@ == fields_of(*record)[i],
        decreases fields_of(*record).len() - fields@.len() + if done { 0int } else { 1int },
    {
        match field(record, fields.len()) {
            Some(text) => {
                fields.push(String::from_str(text));
            },
            None => {
                done = true;
            },
        }
    }
    assert(fields.deep_view() =~= fields_of(*record));
    fields
}

/// Reads the records of the delimited text `data`, in order. The first line
/// is the header line and gives no record.
pub fn parse_records(data: &[u8]) -> (records: Vec<Record>)
    ensures
        records_view(records@) == csv_records(data@),
{
    let mut reader = open_reader(data);
    let mut record = empty_record();
    let mut records: Vec<Record> = Vec::new();
    let mut done = false;
    while !done
        invariant
            records_view(records@) + unread(reader) == csv_records(data@),
            done ==> unread(reader).len() == 0,
        decreases unread(reader).len() + if done { 0int } else { 1int },
    {
        let ghost before = records_view(records@);
        let ghost pending = unread(reader);
        match read_record(&mut reader, &mut record) {
            Some(true) => {
                records.push(Some(record_fields(&record)));
                assert(records_view(records@) =~= before.push(pending[0]));
                assert(before.push(pending[0]) + pending.drop_first() =~= before + pending);
            },
            Some(false) => {
                done = true;
            },
            None => {
                records.push(None);
                assert(records_view(records@) =~= before.push(pending[0]));
                assert(before.push(pending[0]) + pending.drop_first() =~= before + pending);
            },
        }
    }
    assert(records_view(records@) + unread(reader) =~= records_view(records@));
    records
}

} // verus!
