//! Values, rows and named inputs.

use crate::error::{Error, ErrorView};
use crate::text::text_eq;
use chrono::{NaiveDate, NaiveDateTime};
use vstd::prelude::*;
use vstd::std_specs::convert::{FromSpecImpl, IntoSpec};
use vstd::string::*;

verus! {

/// A double-precision number by its IEEE 754 bits.
#[derive(Clone, Copy, Debug)]
pub struct Float64 {
    pub bits: u64,
}

impl Float64 {
    /// The bits without the sign.
    pub open spec fn magnitude(self) -> int {
        if self.bits >= 0x8000_0000_0000_0000 {
            self.bits - 0x8000_0000_0000_0000
        } else {
            self.bits as int
        }
    }

    /// Not a number.
    pub open spec fn is_nan(self) -> bool {
        self.magnitude() > 0x7ff0_0000_0000_0000
    }

    fn unsigned(&self) -> (m: u64)
        ensures
            m == self.magnitude(),
    {
        if self.bits >= 0x8000_0000_0000_0000 {
            self.bits - 0x8000_0000_0000_0000
        } else {
            self.bits
        }
    }
}

impl vstd::std_specs::cmp::PartialEqSpecImpl for Float64 {
    open spec fn obeys_eq_spec() -> bool {
        true
    }

    /// Equality as IEEE 754 has it: a NaN equals nothing, and the two zeros
    /// are equal.
    open spec fn eq_spec(&self, other: &Float64) -> bool {
        &&& !self.is_nan()
        &&& !other.is_nan()
        &&& self.bits == other.bits || (self.magnitude() == 0 && other.magnitude() == 0)
    }
}

impl PartialEq for Float64 {
    fn eq(&self, other: &Float64) -> (same: bool) {
        let a: u64 = self.unsigned();
        let b: u64 = other.unsigned();
        a <= 0x7ff0_0000_0000_0000 && b <= 0x7ff0_0000_0000_0000 && (self.bits == other.bits || (a
            == 0 && b == 0))
    }
}

/// A SQL-shaped value.
#[derive(Debug, PartialEq)]
pub enum Column {
    Null,
    Bool(bool),
    Int64(i64),
    Float64(Float64),
    Text(String),
    Bytes(Vec<u8>),
    Date(NaiveDate),
    /// A point in time in UTC.
    Timestamp(NaiveDateTime),
    Json(serde_json::Value),
}

/// A [`Column`] with its text and bytes as sequences.
pub enum ColumnView {
    Null,
    Bool(bool),
    Int64(i64),
    Float64(u64),
    Text(Seq<char>),
    Bytes(Seq<u8>),
    Date(NaiveDate),
    Timestamp(NaiveDateTime),
    Json(serde_json::Value),
}

impl View for Column {
    type V = ColumnView;

    open spec fn view(&self) -> ColumnView {
        match self {
            Column::Null => ColumnView::Null,
            Column::Bool(v) => ColumnView::Bool(*v),
            Column::Int64(v) => ColumnView::Int64(*v),
            Column::Float64(v) => ColumnView::Float64(v.bits),
            Column::Text(v) => ColumnView::Text(v@),
            Column::Bytes(v) => ColumnView::Bytes(v@),
            Column::Date(v) => ColumnView::Date(*v),
            Column::Timestamp(v) => ColumnView::Timestamp(*v),
            Column::Json(v) => ColumnView::Json(*v),
        }
    }
}

impl ColumnView {
    /// The name of the value's type.
    pub open spec fn kind_name(self) -> Seq<char> {
        match self {
            ColumnView::Null => "null"@,
            ColumnView::Bool(_) => "bool"@,
            ColumnView::Int64(_) => "int64"@,
            ColumnView::Float64(_) => "float64"@,
            ColumnView::Text(_) => "text"@,
            ColumnView::Bytes(_) => "bytes"@,
            ColumnView::Date(_) => "date"@,
            ColumnView::Timestamp(_) => "timestamp"@,
            ColumnView::Json(_) => "json"@,
        }
    }
}

impl Clone for Column {
    fn clone(&self) -> (c: Self)
        ensures
            c@ == self@,
    {
        match self {
            Column::Null => Column::Null,
            Column::Bool(v) => Column::Bool(*v),
            Column::Int64(v) => Column::Int64(*v),
            Column::Float64(v) => Column::Float64(*v),
            Column::Text(v) => Column::Text(v.clone()),
            Column::Bytes(v) => {
                let w = v.clone();
                assert(w@ =~= v@);
                Column::Bytes(w)
            },
            Column::Date(v) => Column::Date(*v),
            Column::Timestamp(v) => Column::Timestamp(*v),
            Column::Json(v) => Column::Json(v.clone()),
        }
    }
}

impl Column {
    /// The name of the value's type, as error messages show it.
    pub fn kind_name(&self) -> (name: &'static str)
        ensures
            name@ == self@.kind_name(),
    {
        match self {
            Column::Null => "null",
            Column::Bool(_) => "bool",
            Column::Int64(_) => "int64",
            Column::Float64(_) => "float64",
            Column::Text(_) => "text",
            Column::Bytes(_) => "bytes",
            Column::Date(_) => "date",
            Column::Timestamp(_) => "timestamp",
            Column::Json(_) => "json",
        }
    }
}

impl FromSpecImpl<bool> for Column {
    open spec fn obeys_from_spec() -> bool {
        true
    }

    open spec fn from_spec(v: bool) -> Column {
        Column::Bool(v)
    }
}

impl From<bool> for Column {
    fn from(v: bool) -> (c: Self) {
        Column::Bool(v)
    }
}

impl FromSpecImpl<i64> for Column {
    open spec fn obeys_from_spec() -> bool {
        true
    }

    open spec fn from_spec(v: i64) -> Column {
        Column::Int64(v)
    }
}

impl From<i64> for Column {
    fn from(v: i64) -> (c: Self) {
        Column::Int64(v)
    }
}

impl FromSpecImpl<Float64> for Column {
    open spec fn obeys_from_spec() -> bool {
        true
    }

    open spec fn from_spec(v: Float64) -> Column {
        Column::Float64(v)
    }
}

impl From<Float64> for Column {
    fn from(v: Float64) -> (c: Self) {
        Column::Float64(v)
    }
}

impl FromSpecImpl<String> for Column {
    open spec fn obeys_from_spec() -> bool {
        true
    }

    open spec fn from_spec(v: String) -> Column {
        Column::Text(v)
    }
}

impl From<String> for Column {
    fn from(v: String) -> (c: Self) {
        Column::Text(v)
    }
}

impl FromSpecImpl<Vec<u8>> for Column {
    open spec fn obeys_from_spec() -> bool {
        true
    }

    open spec fn from_spec(v: Vec<u8>) -> Column {
        Column::Bytes(v)
    }
}

impl From<Vec<u8>> for Column {
    fn from(v: Vec<u8>) -> (c: Self) {
        Column::Bytes(v)
    }
}

impl FromSpecImpl<NaiveDate> for Column {
    open spec fn obeys_from_spec() -> bool {
        true
    }

    open spec fn from_spec(v: NaiveDate) -> Column {
        Column::Date(v)
    }
}

impl From<NaiveDate> for Column {
    fn from(v: NaiveDate) -> (c: Self) {
        Column::Date(v)
    }
}

impl FromSpecImpl<NaiveDateTime> for Column {
    open spec fn obeys_from_spec() -> bool {
        true
    }

    open spec fn from_spec(v: NaiveDateTime) -> Column {
        Column::Timestamp(v)
    }
}

impl From<NaiveDateTime> for Column {
    fn from(v: NaiveDateTime) -> (c: Self) {
        Column::Timestamp(v)
    }
}

impl FromSpecImpl<serde_json::Value> for Column {
    open spec fn obeys_from_spec() -> bool {
        true
    }

    open spec fn from_spec(v: serde_json::Value) -> Column {
        Column::Json(v)
    }
}

impl From<serde_json::Value> for Column {
    fn from(v: serde_json::Value) -> (c: Self) {
        Column::Json(v)
    }
}

impl FromSpecImpl<&str> for Column {
    /// The text is copied into a new string, so the result is given by its
    /// view, on `from` itself.
    open spec fn obeys_from_spec() -> bool {
        false
    }

    open spec fn from_spec(v: &str) -> Column {
        Column::Null
    }
}

impl From<&str> for Column {
    fn from(v: &str) -> (c: Self)
        ensures
            c@ == ColumnView::Text(v@),
    {
        Column::Text(v.to_string())
    }
}

impl<T: Into<Column>> FromSpecImpl<Option<T>> for Column {
    open spec fn obeys_from_spec() -> bool {
        T::obeys_into_spec()
    }

    open spec fn from_spec(v: Option<T>) -> Column {
        match v {
            Some(x) => x.into_spec(),
            None => Column::Null,
        }
    }
}

impl<T: Into<Column>> From<Option<T>> for Column {
    fn from(v: Option<T>) -> (c: Self)
        ensures
            match v {
                Some(x) => call_ensures(T::into, (x,), c),
                None => c == Column::Null,
            },
    {
        match v {
            Some(x) => x.into(),
            None => Column::Null,
        }
    }
}

/// The views of a run of columns.
pub open spec fn column_views(columns: Seq<Column>) -> Seq<ColumnView> {
    columns.map_values(|c: Column| c@)
}

fn clone_columns(columns: &Vec<Column>) -> (copy: Vec<Column>)
    ensures
        column_views(copy@) == column_views(columns@),
{
    let mut copy: Vec<Column> = Vec::new();
    let mut i: usize = 0;
    while i < columns.len()
        invariant
            i <= columns.len(),
            column_views(copy@) == column_views(columns@).take(i as int),
        decreases columns.len() - i,
    {
        let ghost before = copy@;
        copy.push(columns[i].clone());
        assert(column_views(copy@) =~= column_views(before).push(columns@[i as int]@));
        assert(column_views(columns@).take(i + 1) =~= column_views(columns@).take(i as int).push(
            columns@[i as int]@,
        ));
        i += 1;
    }
    assert(column_views(columns@).take(i as int) =~= column_views(columns@));
    copy
}

/// A single row of result data. Columns are positional; their names live in
/// the table function's schema.
#[derive(Debug)]
pub struct Row {
    pub columns: Vec<Column>,
}

impl View for Row {
    type V = Seq<ColumnView>;

    open spec fn view(&self) -> Seq<ColumnView> {
        column_views(self.columns@)
    }
}

impl Clone for Row {
    fn clone(&self) -> (row: Self)
        ensures
            row@ == self@,
    {
        Row { columns: clone_columns(&self.columns) }
    }
}

impl Default for Row {
    fn default() -> (row: Self)
        ensures
            row@ == Seq::<ColumnView>::empty(),
    {
        Row::new()
    }
}

impl Row {
    /// A row with no columns.
    pub fn new() -> (row: Self)
        ensures
            row@ == Seq::<ColumnView>::empty(),
    {
        let row = Row { columns: Vec::new() };
        assert(row@ =~= Seq::<ColumnView>::empty());
        row
    }

    /// A row with no columns yet and room for `n`.
    pub fn with_capacity(n: usize) -> (row: Self)
        ensures
            row@ == Seq::<ColumnView>::empty(),
    {
        let row = Row { columns: Vec::with_capacity(n) };
        assert(row@ =~= Seq::<ColumnView>::empty());
        row
    }

    /// The row with one more column, the value that `c` converts into.
    pub fn push<T: Into<Column>>(self, c: T) -> (row: Self)
        ensures
            exists|x: Column|
                call_ensures(T::into, (c,), x) && #[trigger] self.columns@.push(x)
                    == row.columns@ && row@ == self@.push(x@),
    {
        let x = c.into();
        let mut columns = self.columns;
        columns.push(x);
        let row = Row { columns };
        assert(self.columns@.push(x) == row.columns@);
        assert(row@ =~= self@.push(x@));
        row
    }
}

/// Named input values, as they came from the caller's parameters.
#[derive(Debug)]
pub struct Inputs {
    pub values: Vec<(String, Column)>,
}

/// The views of named values.
pub open spec fn value_views(values: Seq<(String, Column)>) -> Seq<(Seq<char>, ColumnView)> {
    values.map_values(|v: (String, Column)| (v.0@, v.1@))
}

impl View for Inputs {
    type V = Seq<(Seq<char>, ColumnView)>;

    open spec fn view(&self) -> Seq<(Seq<char>, ColumnView)> {
        value_views(self.values@)
    }
}

/// The first value under `name`.
pub open spec fn named_value(values: Seq<(Seq<char>, ColumnView)>, name: Seq<char>) -> Option<
    ColumnView,
>
    decreases values.len(),
{
    if values.len() == 0 {
        None
    } else if values[0].0 == name {
        Some(values[0].1)
    } else {
        named_value(values.drop_first(), name)
    }
}

/// The error for a value of the wrong type.
pub open spec fn input_type_error(
    name: Seq<char>,
    expected: Seq<char>,
    got: ColumnView,
) -> ErrorView {
    ErrorView::InputType { name, expected, got: got.kind_name() }
}

fn wrong_type(name: &str, expected: &'static str, got: &Column) -> (e: Error)
    ensures
        e@ == input_type_error(name@, expected@, got@),
{
    Error::InputType { name: name.to_string(), expected, got: got.kind_name() }
}

impl Clone for Inputs {
    fn clone(&self) -> (inputs: Self)
        ensures
            inputs@ == self@,
    {
        let mut values: Vec<(String, Column)> = Vec::new();
        let mut i: usize = 0;
        while i < self.values.len()
            invariant
                i <= self.values.len(),
                value_views(values@) == self@.take(i as int),
            decreases self.values.len() - i,
        {
            let v = &self.values[i];
            let ghost before = values@;
            values.push((v.0.clone(), v.1.clone()));
            assert(value_views(values@) =~= value_views(before).push(self@[i as int]));
            assert(self@.take(i + 1) =~= self@.take(i as int).push(self@[i as int]));
            i += 1;
        }
        assert(self@.take(i as int) =~= self@);
        Inputs { values }
    }
}

impl Default for Inputs {
    fn default() -> (inputs: Self)
        ensures
            inputs@ == Seq::<(Seq<char>, ColumnView)>::empty(),
    {
        Inputs::new()
    }
}

impl Inputs {
    /// No inputs.
    pub fn new() -> (inputs: Self)
        ensures
            inputs@ == Seq::<(Seq<char>, ColumnView)>::empty(),
    {
        let inputs = Inputs { values: Vec::new() };
        assert(inputs@ =~= Seq::<(Seq<char>, ColumnView)>::empty());
        inputs
    }

    /// The inputs with the given names and values, in the given order.
    pub fn from_pairs(pairs: Vec<(&str, Column)>) -> (inputs: Self)
        ensures
            inputs@ == pairs@.map_values(|p: (&str, Column)| (p.0@, p.1@)),
    {
        let ghost wanted = pairs@.map_values(|p: (&str, Column)| (p.0@, p.1@));
        let mut values: Vec<(String, Column)> = Vec::new();
        let mut i: usize = 0;
        while i < pairs.len()
            invariant
                i <= pairs.len(),
                wanted == pairs@.map_values(|p: (&str, Column)| (p.0@, p.1@)),
                value_views(values@) == wanted.take(i as int),
            decreases pairs.len() - i,
        {
            let p = &pairs[i];
            let ghost before = values@;
            values.push((p.0.to_string(), p.1.clone()));
            assert(value_views(values@) =~= value_views(before).push(wanted[i as int]));
            assert(wanted.take(i + 1) =~= wanted.take(i as int).push(wanted[i as int]));
            i += 1;
        }
        assert(wanted.take(i as int) =~= wanted);
        Inputs { values }
    }

    /// The first value under `name`.
    pub fn get(&self, name: &str) -> (found: Result<&Column, Error>)
        ensures
            match found {
                Ok(c) => named_value(self@, name@) == Some(c@),
                Err(e) => named_value(self@, name@) is None && e@ == ErrorView::MissingInput(
                    name@,
                ),
            },
    {
        let mut i: usize = 0;
        assert(self@.skip(0) =~= self@);
        while i < self.values.len()
            invariant
                i <= self.values.len(),
                named_value(self@, name@) == named_value(self@.skip(i as int), name@),
            decreases self.values.len() - i,
        {
            let v = &self.values[i];
            assert(self@.skip(i as int)[0] == self@[i as int]);
            if text_eq(v.0.as_str(), name) {
                return Ok(&v.1);
            }
            assert(self@.skip(i as int).drop_first() =~= self@.skip(i + 1));
            i += 1;
        }
        Err(Error::MissingInput(name.to_string()))
    }

    /// The integer under `name`.
    pub fn get_i64(&self, name: &str) -> (found: Result<i64, Error>)
        ensures
            match named_value(self@, name@) {
                None => found matches Err(e) && e@ == ErrorView::MissingInput(name@),
                Some(ColumnView::Int64(v)) => found == Ok::<i64, Error>(v),
                Some(c) => found matches Err(e) && e@ == input_type_error(name@, "int64"@, c),
            },
    {
        match self.get(name) {
            Err(e) => Err(e),
            Ok(Column::Int64(v)) => Ok(*v),
            Ok(other) => Err(wrong_type(name, "int64", other)),
        }
    }

    /// The text under `name`.
    pub fn get_text<'a>(&'a self, name: &str) -> (found: Result<&'a str, Error>)
        ensures
            match named_value(self@, name@) {
                None => found matches Err(e) && e@ == ErrorView::MissingInput(name@),
                Some(ColumnView::Text(v)) => found matches Ok(s) && s@ == v,
                Some(c) => found matches Err(e) && e@ == input_type_error(name@, "text"@, c),
            },
    {
        match self.get(name) {
            Err(e) => Err(e),
            Ok(Column::Text(v)) => Ok(v.as_str()),
            Ok(other) => Err(wrong_type(name, "text", other)),
        }
    }

    /// The date under `name`.
    pub fn get_date(&self, name: &str) -> (found: Result<NaiveDate, Error>)
        ensures
            match named_value(self@, name@) {
                None => found matches Err(e) && e@ == ErrorView::MissingInput(name@),
                Some(ColumnView::Date(v)) => found == Ok::<NaiveDate, Error>(v),
                Some(c) => found matches Err(e) && e@ == input_type_error(name@, "date"@, c),
            },
    {
        match self.get(name) {
            Err(e) => Err(e),
            Ok(Column::Date(v)) => Ok(*v),
            Ok(other) => Err(wrong_type(name, "date", other)),
        }
    }

    /// The text under `name`, or `None` where it is null.
    pub fn get_opt_text<'a>(&'a self, name: &str) -> (found: Result<Option<&'a str>, Error>)
        ensures
            match named_value(self@, name@) {
                None => found matches Err(e) && e@ == ErrorView::MissingInput(name@),
                Some(ColumnView::Null) => found matches Ok(None),
                Some(ColumnView::Text(v)) => found matches Ok(Some(s)) && s@ == v,
                Some(c) => found matches Err(e) && e@ == input_type_error(
                    name@,
                    "text or null"@,
                    c,
                ),
            },
    {
        match self.get(name) {
            Err(e) => Err(e),
            Ok(Column::Null) => Ok(None),
            Ok(Column::Text(v)) => Ok(Some(v.as_str())),
            Ok(other) => Err(wrong_type(name, "text or null", other)),
        }
    }
}

/// Later values under a name are never seen: adding values behind the ones
/// that are there does not change what a name that is there stands for.
pub proof fn law_first_value_wins(
    values: Seq<(Seq<char>, ColumnView)>,
    more: Seq<(Seq<char>, ColumnView)>,
    name: Seq<char>,
)
    requires
        named_value(values, name) is Some,
    ensures
        named_value(values + more, name) == named_value(values, name),
    decreases values.len(),
{
    if values[0].0 != name {
        assert((values + more).drop_first() =~= values.drop_first() + more);
        law_first_value_wins(values.drop_first(), more, name);
    }
}

/// Both columns hold the same kind of value, and the same value.
pub open spec fn same_column(a: Column, b: Column) -> bool {
    match (a, b) {
        (Column::Null, Column::Null) => true,
        (Column::Bool(x), Column::Bool(y)) => x == y,
        (Column::Int64(x), Column::Int64(y)) => x == y,
        (Column::Float64(x), Column::Float64(y)) => x.bits == y.bits,
        (Column::Text(x), Column::Text(y)) => x@ == y@,
        (Column::Bytes(x), Column::Bytes(y)) => x@ == y@,
        (Column::Date(x), Column::Date(y)) => x == y,
        (Column::Timestamp(x), Column::Timestamp(y)) => x == y,
        (Column::Json(x), Column::Json(y)) => x == y,
        _ => false,
    }
}

/// Columns are seen as the same exactly where they hold the same.
pub proof fn law_views_tell_columns_apart(a: Column, b: Column)
    ensures
        a@ == b@ <==> same_column(a, b),
{
}

/// Rows are seen as the same exactly where they have the same columns in the same
/// places.
pub proof fn law_views_tell_rows_apart(a: Row, b: Row)
    ensures
        a@ == b@ <==> (a.columns@.len() == b.columns@.len() && forall|i: int|
            #![trigger a.columns@[i]]
            0 <= i < a.columns@.len() ==> same_column(a.columns@[i], b.columns@[i])),
{
    if a@ == b@ {
        assert(a@.len() == a.columns@.len() && b@.len() == b.columns@.len());
        assert forall|i: int| #![trigger a.columns@[i]]
            0 <= i < a.columns@.len() implies same_column(a.columns@[i], b.columns@[i]) by {
            assert(a@[i] == a.columns@[i]@ && b@[i] == b.columns@[i]@);
        }
    }
    if a.columns@.len() == b.columns@.len() && (forall|i: int| #![trigger a.columns@[i]]
        0 <= i < a.columns@.len() ==> same_column(a.columns@[i], b.columns@[i])) {
        assert forall|i: int| 0 <= i < a@.len() implies #[trigger] a@[i] == b@[i] by {
            assert(same_column(a.columns@[i], b.columns@[i]));
        }
        assert(a@ =~= b@);
    }
}

/// A column, a view of which is a given one, holds what the view says.
pub proof fn law_column_views(c: Column)
    ensures
        match c {
            Column::Null => c@ == ColumnView::Null,
            Column::Bool(v) => c@ == ColumnView::Bool(v),
            Column::Int64(v) => c@ == ColumnView::Int64(v),
            Column::Float64(v) => c@ == ColumnView::Float64(v.bits),
            Column::Text(v) => c@ == ColumnView::Text(v@),
            Column::Bytes(v) => c@ == ColumnView::Bytes(v@),
            Column::Date(v) => c@ == ColumnView::Date(v),
            Column::Timestamp(v) => c@ == ColumnView::Timestamp(v),
            Column::Json(v) => c@ == ColumnView::Json(v),
        },
{
}

/// A copy of a column, of a row or of inputs holds the same.
pub proof fn law_copies_hold_the_same(
    column: &Column,
    c: Column,
    row: &Row,
    r: Row,
    inputs: &Inputs,
    n: Inputs,
)
    requires
        call_ensures(<Column as Clone>::clone, (column,), c),
        call_ensures(<Row as Clone>::clone, (row,), r),
        call_ensures(<Inputs as Clone>::clone, (inputs,), n),
    ensures
        same_column(c, *column),
        r.columns@.len() == row.columns@.len(),
        forall|i: int| #![trigger r.columns@[i]]
            0 <= i < r.columns@.len() ==> same_column(r.columns@[i], row.columns@[i]),
        n.values@.len() == inputs.values@.len(),
        forall|i: int| #![trigger n.values@[i]]
            0 <= i < n.values@.len() ==> n.values@[i].0@ == inputs.values@[i].0@ && same_column(
                n.values@[i].1,
                inputs.values@[i].1,
            ),
{
    law_views_tell_columns_apart(c, *column);
    law_views_tell_rows_apart(r, *row);
    lemma_input_views(n, *inputs);
}

proof fn lemma_input_views(a: Inputs, b: Inputs)
    requires
        a@ == b@,
    ensures
        a.values@.len() == b.values@.len(),
        forall|i: int| #![trigger a.values@[i]]
            0 <= i < a.values@.len() ==> a.values@[i].0@ == b.values@[i].0@ && same_column(
                a.values@[i].1,
                b.values@[i].1,
            ),
{
    assert(a@.len() == a.values@.len() && b@.len() == b.values@.len());
    assert forall|i: int| #![trigger a.values@[i]]
        0 <= i < a.values@.len() implies a.values@[i].0@ == b.values@[i].0@ && same_column(
        a.values@[i].1,
        b.values@[i].1,
    ) by {
        assert(a@[i] == (a.values@[i].0@, a.values@[i].1@));
        assert(b@[i] == (b.values@[i].0@, b.values@[i].1@));
    }
}

/// Every value becomes the column of its type that holds it.
pub proof fn law_values_become_columns(
    v0: bool,
    c0: Column,
    v1: i64,
    c1: Column,
    v2: Float64,
    c2: Column,
    v3: String,
    c3: Column,
    v4: Vec<u8>,
    c4: Column,
    v5: NaiveDate,
    c5: Column,
    v6: NaiveDateTime,
    c6: Column,
    v7: serde_json::Value,
    c7: Column,
    text: &str,
    of_text: Column,
)
    requires
        call_ensures(<Column as From<bool>>::from, (v0,), c0),
        call_ensures(<Column as From<i64>>::from, (v1,), c1),
        call_ensures(<Column as From<Float64>>::from, (v2,), c2),
        call_ensures(<Column as From<String>>::from, (v3,), c3),
        call_ensures(<Column as From<Vec<u8>>>::from, (v4,), c4),
        call_ensures(<Column as From<NaiveDate>>::from, (v5,), c5),
        call_ensures(<Column as From<NaiveDateTime>>::from, (v6,), c6),
        call_ensures(<Column as From<serde_json::Value>>::from, (v7,), c7),
        call_ensures(<Column as From<&str>>::from, (text,), of_text),
    ensures
        c0 == Column::Bool(v0),
        c1 == Column::Int64(v1),
        c2 == Column::Float64(v2),
        c3 == Column::Text(v3),
        c4 == Column::Bytes(v4),
        c5 == Column::Date(v5),
        c6 == Column::Timestamp(v6),
        c7 == Column::Json(v7),
        of_text matches Column::Text(t) && t@ == text@,
{
}

/// A value that may be missing becomes its column, or a null.
pub proof fn law_missing_values_become_nulls<T: Into<Column>>(v: Option<T>, c: Column)
    requires
        call_ensures(<Column as From<Option<T>>>::from, (v,), c),
    ensures
        v is None ==> c == Column::Null,
        v matches Some(x) ==> call_ensures(T::into, (x,), c),
{
}

/// A row grows by one column at its end, and its other columns stay.
pub proof fn law_push_adds_one_column<T: Into<Column>>(row: Row, c: T, longer: Row)
    requires
        call_ensures(Row::push::<T>, (row, c), longer),
    ensures
        longer.columns@.len() == row.columns@.len() + 1,
        longer.columns@.drop_last() == row.columns@,
        call_ensures(T::into, (c,), longer.columns@.last()),
{
    let x = choose|x: Column|
        call_ensures(T::into, (c,), x) && #[trigger] row.columns@.push(x) == longer.columns@;
    assert(row.columns@.push(x).drop_last() =~= row.columns@);
}

/// A new row has no columns, and new inputs have no values.
pub proof fn law_new_is_empty(row: Row, n: usize, roomy: Row, inputs: Inputs)
    requires
        call_ensures(Row::new, (), row),
        call_ensures(Row::with_capacity, (n,), roomy),
        call_ensures(Inputs::new, (), inputs),
    ensures
        row.columns@.len() == 0,
        roomy.columns@.len() == 0,
        inputs.values@.len() == 0,
{
    assert(row@.len() == row.columns@.len());
    assert(roomy@.len() == roomy.columns@.len());
    assert(inputs@.len() == inputs.values@.len());
}

/// The names of the kinds of values.
pub proof fn law_kind_names(c: &Column, name: &'static str)
    requires
        call_ensures(Column::kind_name, (c,), name),
    ensures
        *c is Null ==> name@ == "null"@,
        *c is Bool ==> name@ == "bool"@,
        *c is Int64 ==> name@ == "int64"@,
        *c is Float64 ==> name@ == "float64"@,
        *c is Text ==> name@ == "text"@,
        *c is Bytes ==> name@ == "bytes"@,
        *c is Date ==> name@ == "date"@,
        *c is Timestamp ==> name@ == "timestamp"@,
        *c is Json ==> name@ == "json"@,
{
}

/// Inputs made of pairs hold each of them, in their order.
pub proof fn law_inputs_hold_their_pairs(pairs: Vec<(&str, Column)>, inputs: Inputs)
    requires
        call_ensures(Inputs::from_pairs, (pairs,), inputs),
    ensures
        inputs.values@.len() == pairs@.len(),
        forall|i: int| #![trigger inputs.values@[i]]
            0 <= i < pairs@.len() ==> inputs.values@[i].0@ == pairs@[i].0@ && same_column(
                inputs.values@[i].1,
                pairs@[i].1,
            ),
{
    let wanted = pairs@.map_values(|p: (&str, Column)| (p.0@, p.1@));
    assert(inputs@ == wanted);
    assert(inputs@.len() == inputs.values@.len() && wanted.len() == pairs@.len());
    assert forall|i: int| #![trigger inputs.values@[i]]
        0 <= i < pairs@.len() implies inputs.values@[i].0@ == pairs@[i].0@ && same_column(
        inputs.values@[i].1,
        pairs@[i].1,
    ) by {
        assert(inputs@[i] == (inputs.values@[i].0@, inputs.values@[i].1@));
        assert(wanted[i] == (pairs@[i].0@, pairs@[i].1@));
    }
}

/// The place `i` is the first one under the name.
pub open spec fn is_first_under(inputs: Inputs, name: Seq<char>, i: int) -> bool {
    &&& 0 <= i < inputs.values@.len()
    &&& inputs.values@[i].0@ == name
    &&& forall|j: int| #![trigger inputs.values@[j]] 0 <= j < i ==> inputs.values@[j].0@ != name
}

proof fn lemma_named_value(inputs: Inputs, name: Seq<char>, n: int)
    requires
        0 <= n <= inputs.values@.len(),
        forall|j: int| #![trigger inputs.values@[j]] 0 <= j < n ==> inputs.values@[j].0@ != name,
        named_value(inputs@, name) == named_value(inputs@.skip(n), name),
    ensures
        named_value(inputs@, name) is None ==> forall|j: int| #![trigger inputs.values@[j]]
            0 <= j < inputs.values@.len() ==> inputs.values@[j].0@ != name,
        named_value(inputs@, name) matches Some(v) ==> exists|i: int| #[trigger]
            is_first_under(inputs, name, i) && inputs.values@[i].1@ == v,
    decreases inputs.values@.len() - n,
{
    if n < inputs.values@.len() {
        let rest = inputs@.skip(n);
        assert(rest[0] == (inputs.values@[n].0@, inputs.values@[n].1@));
        if inputs.values@[n].0@ == name {
            assert(is_first_under(inputs, name, n));
        } else {
            assert(rest.drop_first() =~= inputs@.skip(n + 1));
            lemma_named_value(inputs, name, n + 1);
        }
    }
}

/// A name stands for the first value under it; where there is none, it is missing.
pub proof fn law_name_stands_for_its_first_value(
    inputs: &Inputs,
    name: &str,
    found: Result<&Column, Error>,
)
    requires
        call_ensures(Inputs::get, (inputs, name), found),
    ensures
        match found {
            Ok(c) => exists|i: int| #[trigger]
                is_first_under(*inputs, name@, i) && same_column(*c, inputs.values@[i].1),
            Err(e) => (e matches Error::MissingInput(n) && n@ == name@) && forall|i: int|
                #![trigger inputs.values@[i]]
                0 <= i < inputs.values@.len() ==> inputs.values@[i].0@ != name@,
        },
{
    assert(inputs@.skip(0) =~= inputs@);
    lemma_named_value(*inputs, name@, 0);
    if let Ok(c) = found {
        let i = choose|i: int| #[trigger]
            is_first_under(*inputs, name@, i) && inputs.values@[i].1@ == c@;
        law_views_tell_columns_apart(*c, inputs.values@[i].1);
    }
}

/// What is asked for as a number, a text or a date is the value under the name
/// where it is of that type, and else an error that names the input, the type that
/// was asked for and the one that is there.
pub proof fn law_values_are_given_by_type<'a>(
    inputs: &'a Inputs,
    name: &str,
    found: Result<&'a Column, Error>,
    kind: &'static str,
    number: Result<i64, Error>,
    text: Result<&'a str, Error>,
    date: Result<NaiveDate, Error>,
    optional: Result<Option<&'a str>, Error>,
)
    requires
        call_ensures(Inputs::get, (inputs, name), found),
        found matches Ok(c) ==> call_ensures(Column::kind_name, (c,), kind),
        call_ensures(Inputs::get_i64, (inputs, name), number),
        call_ensures(Inputs::get_text, (inputs, name), text),
        call_ensures(Inputs::get_date, (inputs, name), date),
        call_ensures(Inputs::get_opt_text, (inputs, name), optional),
    ensures
        match found {
            Err(_) => {
                &&& number matches Err(Error::MissingInput(n)) && n@ == name@
                &&& text matches Err(Error::MissingInput(n)) && n@ == name@
                &&& date matches Err(Error::MissingInput(n)) && n@ == name@
                &&& optional matches Err(Error::MissingInput(n)) && n@ == name@
            },
            Ok(c) => {
                &&& match *c {
                    Column::Int64(v) => number == Ok::<i64, Error>(v),
                    _ => number matches Err(Error::InputType { name: n, expected, got }) && n@
                        == name@ && expected@ == "int64"@ && got@ == kind@,
                }
                &&& match *c {
                    Column::Text(v) => text matches Ok(t) && t@ == v@,
                    _ => text matches Err(Error::InputType { name: n, expected, got }) && n@ == name@
                        && expected@ == "text"@ && got@ == kind@,
                }
                &&& match *c {
                    Column::Date(v) => date == Ok::<NaiveDate, Error>(v),
                    _ => date matches Err(Error::InputType { name: n, expected, got }) && n@ == name@
                        && expected@ == "date"@ && got@ == kind@,
                }
                &&& match *c {
                    Column::Null => optional matches Ok(None),
                    Column::Text(v) => optional matches Ok(Some(t)) && t@ == v@,
                    _ => optional matches Err(Error::InputType { name: n, expected, got }) && n@
                        == name@ && expected@ == "text or null"@ && got@ == kind@,
                }
            },
        },
{
}

/// Numbers are equal as floating-point numbers are: one that is not a number
/// equals none, the two zeros equal each other, and all others equal themselves
/// alone.
pub proof fn law_equal_numbers(a: &Float64, b: &Float64, same: bool)
    requires
        call_ensures(<Float64 as PartialEq>::eq, (a, b), same),
    ensures
        a.bits % 0x8000_0000_0000_0000 > 0x7ff0_0000_0000_0000 ==> !same,
        b.bits % 0x8000_0000_0000_0000 > 0x7ff0_0000_0000_0000 ==> !same,
        a.bits % 0x8000_0000_0000_0000 <= 0x7ff0_0000_0000_0000 && b.bits % 0x8000_0000_0000_0000
            <= 0x7ff0_0000_0000_0000 ==> (same <==> a.bits == b.bits || (a.bits
            % 0x8000_0000_0000_0000 == 0 && b.bits % 0x8000_0000_0000_0000 == 0)),
{
}

} // verus!
