//! The typed record of the fixed five-column schema.

use vstd::prelude::*;

verus! {

/// One record of the table: five mandatory integer columns, in schema order.
#[derive(Clone, Copy, Debug, PartialEq, Eq, Structural)]
pub struct BirthRow {
    pub year: i32,
    pub month: i32,
    pub date_of_month: i32,
    pub day_of_week: i32,
    pub births: i32,
}

impl BirthRow {
    /// The five column values in schema order.
    pub open spec fn columns(self) -> Seq<int> {
        seq![
            self.year as int,
            self.month as int,
            self.date_of_month as int,
            self.day_of_week as int,
            self.births as int,
        ]
    }

    /// The five column values in schema order, as they are bound to the
    /// placeholders of an insert.
    pub open spec fn bound(self) -> Seq<i32> {
        seq![self.year, self.month, self.date_of_month, self.day_of_week, self.births]
    }

    /// The five column values in schema order, to bind to the placeholders
    /// of an insert.
    pub fn values(&self) -> (v: Vec<i32>)
        ensures
            v@ == self.bound(),
    {
        let mut v: Vec<i32> = Vec::new();
        v.push(self.year);
        v.push(self.month);
        v.push(self.date_of_month);
        v.push(self.day_of_week);
        v.push(self.births);
        assert(v@ =~= seq![
            self.year,
            self.month,
            self.date_of_month,
            self.day_of_week,
            self.births,
        ]);
        v
    }

    /// Builds a row from its five column values, in schema order.
    pub fn new(year: i32, month: i32, date_of_month: i32, day_of_week: i32, births: i32) -> (row:
        BirthRow)
        ensures
            row == (BirthRow { year, month, date_of_month, day_of_week, births }),
    {
        BirthRow { year, month, date_of_month, day_of_week, births }
    }
}

} // verus!
