//! From the text fields of one record to a typed row.
//!
//! The five fields stand in schema order. Each is trimmed of surrounding
//! whitespace before it is read. The two kinds of column are read under two
//! policies, and the difference is kept on purpose: a year that does not read
//! as a whole number becomes 0 and the record goes on, while any of the four
//! numeric columns that does not read refuses the record.

use vstd::prelude::*;
use crate::number::integer_value;
use crate::number::parse_integer;
use crate::numeral::lemma_whole_number_reads_the_same;
use crate::numeral::lemma_whole_value_is_exact;
use crate::numeral::whole_value;
use crate::numeral::numeral_value;
use crate::numeral::parse_numeral;
use crate::rounding::SIGNIFICAND_END;
use crate::row::BirthRow;
use crate::text::chars_of;
use crate::text::trim;
use crate::text::trimmed;

verus! {

/// The number of columns of the schema.
pub const COLUMNS: usize = 5;

/// Why a record gives no row. Columns are counted from 0, in schema order.
#[derive(Clone, Copy, Debug, PartialEq, Eq, Structural)]
pub enum FieldParseError {
    /// The record ends before this column.
    Missing { column: usize },
    /// The text of this numeric column is no number.
    Unparsable { column: usize },
}

/// The year that the field `field` gives: the whole number that it writes,
/// once trimmed, and 0 if it writes none.
pub open spec fn year_of(field: Seq<char>) -> int {
    match integer_value(trimmed(field)) {
        Some(v) => v,
        None => 0,
    }
}

/// The integer that the numeric field `field` gives, once trimmed, if it
/// gives one.
pub open spec fn measure_of(field: Seq<char>) -> Option<int> {
    numeral_value(trimmed(field))
}

/// What is wrong with column `column` of `fields`, if anything is: the
/// column is missing, or it is a numeric column (any but the first) whose
/// text gives no integer.
pub open spec fn fault_at(fields: Seq<Seq<char>>, column: usize) -> Option<FieldParseError> {
    if column >= fields.len() {
        Some(FieldParseError::Missing { column })
    } else if column > 0 && measure_of(fields[column as int]) is None {
        Some(FieldParseError::Unparsable { column })
    } else {
        None
    }
}

/// The first fault among the columns of `fields`, in schema order.
pub open spec fn first_fault(fields: Seq<Seq<char>>) -> Option<FieldParseError> {
    if fault_at(fields, 0) is Some {
        fault_at(fields, 0)
    } else if fault_at(fields, 1) is Some {
        fault_at(fields, 1)
    } else if fault_at(fields, 2) is Some {
        fault_at(fields, 2)
    } else if fault_at(fields, 3) is Some {
        fault_at(fields, 3)
    } else {
        fault_at(fields, 4)
    }
}

/// The row that `fields` give, or the first fault that keeps them from
/// giving one. Fields after the fifth are not looked at.
pub open spec fn coerced(fields: Seq<Seq<char>>) -> Result<BirthRow, FieldParseError> {
    match first_fault(fields) {
        Some(fault) => Err(fault),
        None => Ok(
            BirthRow {
                year: year_of(fields[0]) as i32,
                month: measure_of(fields[1]).unwrap() as i32,
                date_of_month: measure_of(fields[2]).unwrap() as i32,
                day_of_week: measure_of(fields[3]).unwrap() as i32,
                births: measure_of(fields[4]).unwrap() as i32,
            },
        ),
    }
}

/// A year that does not read as a whole number does not refuse the record:
/// where the four numeric columns read, the record gives a row, and its year
/// is 0.
pub proof fn lemma_unreadable_year_is_zero(fields: Seq<Seq<char>>)
    requires
        fields.len() >= COLUMNS,
        integer_value(trimmed(fields[0])) is None,
        forall|column: int| 1 <= column < COLUMNS ==> measure_of(#[trigger] fields[column]) is Some,
    ensures
        coerced(fields) is Ok,
        coerced(fields).unwrap().year == 0,
{
    assert(measure_of(fields[1]) is Some);
    assert(measure_of(fields[2]) is Some);
    assert(measure_of(fields[3]) is Some);
    assert(measure_of(fields[4]) is Some);
}

/// A numeric column that does not read refuses the record, whatever the
/// columns after it hold, and the fault names the first such column.
pub proof fn lemma_unreadable_measure_refuses(fields: Seq<Seq<char>>, column: usize)
    requires
        1 <= column < COLUMNS <= fields.len(),
        measure_of(fields[column as int]) is None,
        forall|before: int| 1 <= before < column ==> measure_of(#[trigger] fields[before]) is Some,
    ensures
        coerced(fields) == Err::<BirthRow, FieldParseError>(FieldParseError::Unparsable { column }),
{
    if column > 1 {
        assert(measure_of(fields[1]) is Some);
    }
    if column > 2 {
        assert(measure_of(fields[2]) is Some);
    }
    if column > 3 {
        assert(measure_of(fields[3]) is Some);
    }
}

/// A record of five or more fields that all read gives the row of their
/// values, column by column.
pub proof fn lemma_readable_record_gives_row(fields: Seq<Seq<char>>)
    requires
        fields.len() >= COLUMNS,
        forall|column: int| 1 <= column < COLUMNS ==> measure_of(#[trigger] fields[column]) is Some,
    ensures
        coerced(fields) is Ok,
        coerced(fields).unwrap().columns() == seq![
            year_of(fields[0]),
            measure_of(fields[1]).unwrap(),
            measure_of(fields[2]).unwrap(),
            measure_of(fields[3]).unwrap(),
            measure_of(fields[4]).unwrap(),
        ],
{
    assert(measure_of(fields[1]) is Some);
    assert(measure_of(fields[2]) is Some);
    assert(measure_of(fields[3]) is Some);
    assert(measure_of(fields[4]) is Some);
}

/// Whether `fields` are five or more, the four numeric ones, once trimmed,
/// numerals of a whole value of at most `2^24` in magnitude.
pub open spec fn is_whole_valued(fields: Seq<Seq<char>>) -> bool {
    &&& fields.len() >= COLUMNS
    &&& forall|column: int|
        1 <= column < COLUMNS ==> whole_value(trimmed(#[trigger] fields[column])) is Some
}

/// The column values that whole-valued `fields` write: the year that the
/// first field gives, and the whole values of the four numeric fields.
pub open spec fn whole_values(fields: Seq<Seq<char>>) -> Seq<int> {
    seq![
        year_of(fields[0]),
        whole_value(trimmed(fields[1])).unwrap(),
        whole_value(trimmed(fields[2])).unwrap(),
        whole_value(trimmed(fields[3])).unwrap(),
        whole_value(trimmed(fields[4])).unwrap(),
    ]
}

/// A record whose numeric fields, once trimmed, are numerals of a whole
/// value of at most `2^24` in magnitude gives the row of those values, with
/// the year that its first field gives.
pub proof fn lemma_whole_values_give_their_row(fields: Seq<Seq<char>>)
    requires
        is_whole_valued(fields),
    ensures
        coerced(fields) is Ok,
        coerced(fields).unwrap().columns() == whole_values(fields),
{
    assert(whole_value(trimmed(fields[1])) is Some);
    assert(whole_value(trimmed(fields[2])) is Some);
    assert(whole_value(trimmed(fields[3])) is Some);
    assert(whole_value(trimmed(fields[4])) is Some);
    lemma_whole_value_is_exact(trimmed(fields[1]));
    lemma_whole_value_is_exact(trimmed(fields[2]));
    lemma_whole_value_is_exact(trimmed(fields[3]));
    lemma_whole_value_is_exact(trimmed(fields[4]));
}

/// Whether `field`, once trimmed, writes a whole number of at most `2^24`
/// in magnitude.
pub open spec fn writes_small_whole(field: Seq<char>) -> bool {
    integer_value(trimmed(field)) is Some && -SIGNIFICAND_END <= integer_value(
        trimmed(field),
    ).unwrap() <= SIGNIFICAND_END
}

/// A record whose first five fields write whole numbers of at most `2^24`
/// in magnitude gives the row of those numbers.
pub proof fn lemma_whole_numbers_give_their_row(fields: Seq<Seq<char>>)
    requires
        fields.len() >= COLUMNS,
        forall|column: int| 0 <= column < COLUMNS ==> writes_small_whole(#[trigger] fields[column]),
    ensures
        coerced(fields) is Ok,
        coerced(fields).unwrap().columns() == seq![
            integer_value(trimmed(fields[0])).unwrap(),
            integer_value(trimmed(fields[1])).unwrap(),
            integer_value(trimmed(fields[2])).unwrap(),
            integer_value(trimmed(fields[3])).unwrap(),
            integer_value(trimmed(fields[4])).unwrap(),
        ],
{
    assert(writes_small_whole(fields[0]));
    assert(writes_small_whole(fields[1]));
    assert(writes_small_whole(fields[2]));
    assert(writes_small_whole(fields[3]));
    assert(writes_small_whole(fields[4]));
    lemma_whole_number_reads_the_same(trimmed(fields[1]));
    lemma_whole_number_reads_the_same(trimmed(fields[2]));
    lemma_whole_number_reads_the_same(trimmed(fields[3]));
    lemma_whole_number_reads_the_same(trimmed(fields[4]));
}

/// Reads the year from `field`: the whole number it writes, or 0.
pub fn read_year(field: &str) -> (year: i32)
    ensures
        year == year_of(field@),
{
    let chars = chars_of(field);
    match parse_integer(trim(chars.as_slice())) {
        Some(v) => v,
        None => 0,
    }
}

/// Reads the integer of a numeric column from `field`.
pub fn read_measure(field: &str) -> (r: Option<i32>)
    ensures
        match measure_of(field@) {
            Some(v) => r == Some(v as i32) && i32::MIN <= v <= i32::MAX,
            None => r is None,
        },
{
    let chars = chars_of(field);
    parse_numeral(trim(chars.as_slice()))
}

/// Reads the numeric column `column` of `fields`.
fn read_column(fields: &Vec<String>, column: usize) -> (r: Result<i32, FieldParseError>)
    requires
        1 <= column < COLUMNS,
    ensures
        match fault_at(fields.deep_view(), column) {
            Some(fault) => r == Err::<i32, FieldParseError>(fault),
            None => r is Ok && r.unwrap() == measure_of(fields.deep_view()[column as int]).unwrap(),
        },
{
    if column >= fields.len() {
        return Err(FieldParseError::Missing { column });
    }
    match read_measure(fields[column].as_str()) {
        Some(v) => Ok(v),
        None => Err(FieldParseError::Unparsable { column }),
    }
}

/// Makes a row of the fields of one record.
pub fn coerce_row(fields: &Vec<String>) -> (r: Result<BirthRow, FieldParseError>)
    ensures
        r == coerced(fields.deep_view()),
{
    if fields.len() == 0 {
        return Err(FieldParseError::Missing { column: 0 });
    }
    let year = read_year(fields[0].as_str());
    let month = match read_column(fields, 1) {
        Ok(v) => v,
        Err(fault) => {
            return Err(fault);
        },
    };
    let date_of_month = match read_column(fields, 2) {
        Ok(v) => v,
        Err(fault) => {
            return Err(fault);
        },
    };
    let day_of_week = match read_column(fields, 3) {
        Ok(v) => v,
        Err(fault) => {
            return Err(fault);
        },
    };
    let births = match read_column(fields, 4) {
        Ok(v) => v,
        Err(fault) => {
            return Err(fault);
        },
    };
    Ok(BirthRow { year, month, date_of_month, day_of_week, births })
}

} // verus!
