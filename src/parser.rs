//! Reads an exported table of tracked events into rows, and the rows that
//! record symptoms into a store.
use chrono::Datelike;
use crate::data_manager::DataManager;
use crate::symptom::{name_of_detail, read_symptom, Symptom};
use crate::text::{decimal_u8, same_text};
use crate::time::Date;
use crate::time_of_day::{label_time_of_day, TimeOfDay};
use vstd::prelude::*;

verus! {

/// Why a table could not be read into rows, or rows into a store.
#[derive(Clone, Copy, Debug, PartialEq, Eq, Structural)]
pub enum ParseError {
    /// The text is no well-formed table.
    Table,
    /// The header lacks a column that rows need.
    MissingColumn,
    /// A row has fewer fields than the header has columns.
    ShortRow,
    /// A date that does not read as, for instance, `8th Dec 2021`.
    BadDate,
    /// A symptom's detail without a severity label such as ` (Mild)`.
    BadDetail,
    /// A part of the day that is none of the known labels.
    BadTimeOfDay,
    /// A severity that is no number from 0 to 255.
    BadSeverity,
    /// A symptom whose span of time cannot be derived.
    NoSpan,
}

/// The records of a table as csv reads them, the header row included, each
/// as its fields; `None` when csv reports an error.
pub uninterp spec fn csv_table(text: Seq<char>) -> Option<Seq<Seq<Seq<char>>>>;

/// What the first match of `pattern` in `text` captures: the text of each
/// group, or `None` for a group that took no part in the match. `None` when
/// nothing matches or the pattern is not a valid regular expression.
pub uninterp spec fn regex_captures(pattern: Seq<char>, text: Seq<char>) -> Option<
    Seq<Option<Seq<char>>>,
>;

/// The day number (counted from the common era) of the date that `text`
/// writes in `format`, if it writes one.
pub uninterp spec fn date_in_format(text: Seq<char>, format: Seq<char>) -> Option<i32>;

/// Relies on csv's `ReaderBuilder::from_reader` and `Reader::records`, with
/// `has_headers(false)` so that the header row comes back as the first record.
#[verifier::external_body]
pub(crate) fn read_table(text: &str) -> (r: Option<Vec<Vec<String>>>)
    ensures
        match csv_table(text@) {
            Some(table) => r matches Some(rows) && rows.deep_view() == table,
            None => r is None,
        },
{
    let mut reader = csv::ReaderBuilder::new().has_headers(false).from_reader(text.as_bytes());
    let mut rows = Vec::new();
    for record in reader.records() {
        rows.push(record.ok()?.iter().map(|field| field.to_string()).collect());
    }
    Some(rows)
}

/// Relies on regex's `Regex::new` and `Regex::captures`: the groups of the
/// first match, group 0 being the whole match.
#[verifier::external_body]
pub(crate) fn captures(pattern: &str, text: &str) -> (r: Option<Vec<Option<String>>>)
    ensures
        match regex_captures(pattern@, text@) {
            Some(groups) => r matches Some(found) && found.deep_view() == groups,
            None => r is None,
        },
{
    let found = regex::Regex::new(pattern).ok()?.captures(text)?;
    Some(found.iter().map(|group| group.map(|m| m.as_str().to_string())).collect())
}

/// Relies on chrono's `NaiveDate::parse_from_str`, with the date read back
/// as a day number by `Datelike::num_days_from_ce`.
#[verifier::external_body]
fn parse_date(text: &str, format: &str) -> (r: Option<i32>)
    ensures
        r == date_in_format(text@, format@),
{
    chrono::NaiveDate::parse_from_str(text, format).ok().map(|date| date.num_days_from_ce())
}

/// How exports write a date: a day with an ordinal suffix, a month's
/// abbreviation and a year, as in `8th Dec 2021`.
pub const DATE_PATTERN: &'static str = r"(\d*)(\w*) (\w\w\w) (\d\d\d\d)";

/// The day, month and year captured from an export's date, joined, in
/// chrono's notation.
pub const JOINED_DATE_FORMAT: &'static str = "%d%b%Y";

/// The date an export writes as `text`: the day, month and year captured by
/// `DATE_PATTERN`, joined and read in `JOINED_DATE_FORMAT`.
pub open spec fn date_of_text(text: Seq<char>) -> Option<Date> {
    match regex_captures(DATE_PATTERN@, text) {
        Some(groups) => match joined_date_fields(groups) {
            Some(joined) => match date_in_format(joined, JOINED_DATE_FORMAT@) {
                Some(days) => Some(Date { days }),
                None => None,
            },
            None => None,
        },
        None => None,
    }
}

/// The day, month and year that `DATE_PATTERN` captures (groups 1, 3 and 4),
/// joined, if all three took part in the match.
pub open spec fn joined_date_fields(groups: Seq<Option<Seq<char>>>) -> Option<Seq<char>> {
    if groups.len() > 4 && groups[1] is Some && groups[3] is Some && groups[4] is Some {
        Some(groups[1]->Some_0 + groups[3]->Some_0 + groups[4]->Some_0)
    } else {
        None
    }
}

/// Reads a date as exports write it, such as `8th Dec 2021`.
pub fn deserialize(text: &str) -> (r: Option<Date>)
    ensures
        r == date_of_text(text@),
{
    let groups = match captures(DATE_PATTERN, text) {
        Some(groups) => groups,
        None => {
            return None;
        },
    };
    let joined = match join_date_fields(&groups) {
        Some(joined) => joined,
        None => {
            return None;
        },
    };
    match parse_date(joined.as_str(), JOINED_DATE_FORMAT) {
        Some(days) => Some(Date { days }),
        None => None,
    }
}

/// Joins the day, month and year captured from an export's date (groups 1,
/// 3 and 4 of `DATE_PATTERN`) into the form `JOINED_DATE_FORMAT` reads.
pub fn join_date_fields(groups: &Vec<Option<String>>) -> (r: Option<String>)
    ensures
        match joined_date_fields(groups.deep_view()) {
            Some(joined) => r matches Some(s) && s@ == joined,
            None => r is None,
        },
{
    if groups.len() <= 4 {
        return None;
    }
    proof {
        assert(groups.deep_view()[1] == groups@[1].deep_view());
        assert(groups.deep_view()[3] == groups@[3].deep_view());
        assert(groups.deep_view()[4] == groups@[4].deep_view());
    }
    match (&groups[1], &groups[3], &groups[4]) {
        (Some(day), Some(month), Some(year)) => Some(
            day.clone().concat(month.as_str()).concat(year.as_str()),
        ),
        _ => None,
    }
}

/// One row of an export: a tracked event on some day.
#[derive(Clone, Debug, PartialEq)]
pub struct CsvRow {
    pub date: Date,
    pub weekday: String,
    pub time_of_day: String,
    pub category: String,
    pub amount: String,
    pub detail: String,
    pub notes: String,
}

/// The header of each field of a `CsvRow`, in the order of its fields.
pub open spec fn column_names() -> Seq<Seq<char>> {
    seq![
        "date"@,
        "weekday"@,
        "time of day"@,
        "category"@,
        "rating/amount"@,
        "detail"@,
        "notes"@,
    ]
}

/// The first column of `header` named `name`.
#[verifier::opaque]
pub open spec fn column_of(header: Seq<Seq<char>>, name: Seq<char>) -> Option<int> {
    if exists|i: int| 0 <= i < header.len() && header[i] == name {
        Some(
            choose|i: int|
                0 <= i < header.len() && header[i] == name && forall|j: int|
                    0 <= j < i ==> header[j] != name,
        )
    } else {
        None
    }
}

/// The columns of `header` that hold the fields of a `CsvRow`, if it has
/// them all.
#[verifier::opaque]
pub open spec fn header_columns(header: Seq<Seq<char>>) -> Option<Seq<int>> {
    if forall|f: int| 0 <= f < 7 ==> (#[trigger] column_of(header, column_names()[f])) is Some {
        Some(Seq::new(7, |f: int| column_of(header, column_names()[f])->Some_0))
    } else {
        None
    }
}

/// What is wrong with the record `fields`, read through the columns `cols`.
pub open spec fn row_error(cols: Seq<int>, fields: Seq<Seq<char>>) -> Option<ParseError> {
    if exists|f: int| 0 <= f < 7 && cols[f] >= fields.len() {
        Some(ParseError::ShortRow)
    } else if date_of_text(fields[cols[0]]) is None {
        Some(ParseError::BadDate)
    } else {
        None
    }
}

/// `row` holds the fields of the record `fields`, read through `cols`.
pub open spec fn row_read(cols: Seq<int>, fields: Seq<Seq<char>>, row: CsvRow) -> bool {
    &&& date_of_text(fields[cols[0]]) == Some(row.date)
    &&& row.weekday@ == fields[cols[1]]
    &&& row.time_of_day@ == fields[cols[2]]
    &&& row.category@ == fields[cols[3]]
    &&& row.amount@ == fields[cols[4]]
    &&& row.detail@ == fields[cols[5]]
    &&& row.notes@ == fields[cols[6]]
}

/// `rows` are the rows read from `table`, whose first record is its header.
pub open spec fn table_rows(table: Seq<Seq<Seq<char>>>, rows: Seq<CsvRow>) -> bool {
    if table.len() == 0 {
        rows.len() == 0
    } else {
        &&& header_columns(table[0]) is Some
        &&& rows.len() == table.len() - 1
        &&& forall|k: int|
            0 <= k < rows.len() ==> row_read(
                header_columns(table[0])->Some_0,
                table[k + 1],
                #[trigger] rows[k],
            )
    }
}

/// The first column of `header` named `name`.
fn find_column(header: &Vec<String>, name: &str) -> (r: Option<usize>)
    ensures
        r matches Some(i) ==> i < header@.len() && column_of(header.deep_view(), name@) == Some(
            i as int,
        ),
        r is None ==> column_of(header.deep_view(), name@) is None,
{
    let ghost names = header.deep_view();
    let n = header.len();
    let mut i: usize = 0;
    while i < n
        invariant
            i <= n,
            n == header@.len(),
            names == header.deep_view(),
            forall|j: int| 0 <= j < i ==> names[j] != name@,
        decreases n - i,
    {
        assert(names[i as int] == header@[i as int]@);
        if same_text(header[i].as_str(), name) {
            proof {
                reveal(column_of);
                let k = choose|k: int|
                    0 <= k < names.len() && names[k] == name@ && forall|j: int|
                        0 <= j < k ==> names[j] != name@;
                assert(0 <= i < names.len() && names[i as int] == name@ && forall|j: int|
                    0 <= j < i ==> names[j] != name@);
                if k < i {
                    assert(names[k] != name@);
                } else if k > i {
                    assert(names[i as int] != name@);
                }
            }
            return Some(i);
        }
        i += 1;
    }
    proof {
        reveal(column_of);
    }
    None
}

/// The columns of `header` that hold the fields of a `CsvRow`, in the order
/// of its fields.
fn header_positions(header: &Vec<String>) -> (r: Option<Vec<usize>>)
    ensures
        match header_columns(header.deep_view()) {
            Some(cols) => r matches Some(found) && found@.len() == 7 && forall|f: int|
                0 <= f < 7 ==> cols[f] == #[trigger] found@[f] as int,
            None => r is None,
        },
{
    let names: [&str; 7] = ["date", "weekday", "time of day", "category", "rating/amount", "detail", "notes"];
    proof {
        reveal_strlit("date");
        reveal_strlit("weekday");
        reveal_strlit("time of day");
        reveal_strlit("category");
        reveal_strlit("rating/amount");
        reveal_strlit("detail");
        reveal_strlit("notes");
        assert forall|f: int| 0 <= f < 7 implies (#[trigger] names@[f])@ == column_names()[f] by {}
    }
    reveal(header_columns);
    let ghost h = header.deep_view();
    let mut found: Vec<usize> = Vec::new();
    let mut f: usize = 0;
    while f < 7
        invariant
            f <= 7,
            h == header.deep_view(),
            forall|g: int| 0 <= g < 7 ==> (#[trigger] names@[g])@ == column_names()[g],
            found@.len() == f,
            forall|g: int| 0 <= g < f ==> column_of(h, column_names()[g]) == Some(#[trigger] found@[g] as int),
        decreases 7 - f,
    {
        assert(names@[f as int]@ == column_names()[f as int]);
        match find_column(header, names[f]) {
            Some(c) => {
                let ghost before = found@;
                found.push(c);
                assert forall|g: int| 0 <= g <= f implies column_of(h, column_names()[g]) == Some(
                    #[trigger] found@[g] as int,
                ) by {
                    if g < f {
                        assert(found@[g] == before[g]);
                    }
                }
            },
            None => {
                assert(column_of(h, column_names()[f as int]) is None);
                proof {
                    reveal(header_columns);
                }
                return None;
            },
        }
        f += 1;
    }
    proof {
        assert forall|g: int| 0 <= g < 7 implies (#[trigger] column_of(h, column_names()[g])) is Some by {
            assert(column_of(h, column_names()[g]) == Some(found@[g] as int));
        }
    }
    Some(found)
}

/// Reads the record `fields` into a row, its fields found in columns `cols`.
fn read_row(fields: &Vec<String>, cols: &Vec<usize>) -> (r: Result<CsvRow, ParseError>)
    requires
        cols@.len() == 7,
    ensures
        match row_error(cols@.map_values(|c: usize| c as int), fields.deep_view()) {
            Some(e) => r == Err::<CsvRow, ParseError>(e),
            None => r matches Ok(row) && row_read(
                cols@.map_values(|c: usize| c as int),
                fields.deep_view(),
                row,
            ),
        },
{
    let ghost at = cols@.map_values(|c: usize| c as int);
    let ghost t = fields.deep_view();
    let m = fields.len();
    let mut f: usize = 0;
    while f < 7
        invariant
            f <= 7,
            cols@.len() == 7,
            m == fields@.len(),
            at == cols@.map_values(|c: usize| c as int),
            t == fields.deep_view(),
            forall|g: int| 0 <= g < f ==> #[trigger] at[g] < m,
        decreases 7 - f,
    {
        if cols[f] >= m {
            assert(at[f as int] == cols@[f as int] as int);
            assert(t.len() == m);
            assert(at[f as int] >= t.len());
            return Err(ParseError::ShortRow);
        }
        f += 1;
    }
    assert(!exists|g: int| 0 <= g < 7 && at[g] >= t.len());
    assert forall|g: int| 0 <= g < 7 implies #[trigger] cols@[g] < m by {
        assert(at[g] == cols@[g] as int);
    }
    assert(t[at[0]] == fields@[cols@[0] as int]@);
    let date = match deserialize(fields[cols[0]].as_str()) {
        Some(date) => date,
        None => {
            return Err(ParseError::BadDate);
        },
    };
    let row = CsvRow {
        date,
        weekday: fields[cols[1]].clone(),
        time_of_day: fields[cols[2]].clone(),
        category: fields[cols[3]].clone(),
        amount: fields[cols[4]].clone(),
        detail: fields[cols[5]].clone(),
        notes: fields[cols[6]].clone(),
    };
    proof {
        assert(t[at[1]] == fields@[cols@[1] as int]@);
        assert(t[at[2]] == fields@[cols@[2] as int]@);
        assert(t[at[3]] == fields@[cols@[3] as int]@);
        assert(t[at[4]] == fields@[cols@[4] as int]@);
        assert(t[at[5]] == fields@[cols@[5] as int]@);
        assert(t[at[6]] == fields@[cols@[6] as int]@);
    }
    Ok(row)
}

/// Reads the records of a table whose first record is its header: each later
/// record becomes a row, its fields found by the header's column names.
pub fn rows_from_table(table: &Vec<Vec<String>>) -> (r: Result<Vec<CsvRow>, ParseError>)
    ensures
        table@.len() == 0 ==> (r matches Ok(rows) && rows@.len() == 0),
        table@.len() > 0 ==> match header_columns(table.deep_view()[0]) {
            None => r == Err::<Vec<CsvRow>, ParseError>(ParseError::MissingColumn),
            Some(cols) => {
                &&& r is Ok <==> forall|k: int|
                    1 <= k < table@.len() ==> row_error(cols, #[trigger] table.deep_view()[k]) is None
                &&& r matches Ok(rows) ==> rows@.len() == table@.len() - 1 && forall|k: int|
                    0 <= k < rows@.len() ==> row_read(cols, table.deep_view()[k + 1], #[trigger] rows@[k])
                &&& r matches Err(e) ==> exists|k: int|
                    1 <= k < table@.len() && row_error(cols, #[trigger] table.deep_view()[k]) == Some(e)
            },
        },
{
    let mut rows: Vec<CsvRow> = Vec::new();
    let n = table.len();
    if n == 0 {
        return Ok(rows);
    }
    let ghost t = table.deep_view();
    assert(t[0] == table@[0].deep_view());
    let cols = match header_positions(&table[0]) {
        Some(cols) => cols,
        None => {
            return Err(ParseError::MissingColumn);
        },
    };
    let ghost at = cols@.map_values(|c: usize| c as int);
    assert(header_columns(t[0]) == Some(at)) by {
        reveal(header_columns);
        assert(header_columns(t[0])->Some_0 =~= at);
    }
    let mut k: usize = 1;
    while k < n
        invariant
            1 <= k <= n,
            n == table@.len(),
            t == table.deep_view(),
            cols@.len() == 7,
            at == cols@.map_values(|c: usize| c as int),
            header_columns(t[0]) == Some(at),
            rows@.len() == k - 1,
            forall|j: int| 1 <= j < k ==> row_error(at, #[trigger] t[j]) is None,
            forall|j: int| 0 <= j < rows@.len() ==> row_read(at, t[j + 1], #[trigger] rows@[j]),
        decreases n - k,
    {
        assert(t[k as int] == table@[k as int].deep_view());
        let row = match read_row(&table[k], &cols) {
            Ok(row) => row,
            Err(e) => {
                assert(row_error(at, t[k as int]) == Some(e));
                return Err(e);
            },
        };
        rows.push(row);
        k += 1;
    }
    Ok(rows)
}

/// Reads an export: a table whose header names the columns.
pub fn parse(csv_text: &str) -> (r: Result<Vec<CsvRow>, ParseError>)
    ensures
        csv_table(csv_text@) is None ==> r == Err::<Vec<CsvRow>, ParseError>(ParseError::Table),
        csv_table(csv_text@) matches Some(table) ==> (table.len() == 0 ==> (r matches Ok(rows) && rows@.len() == 0)),
        csv_table(csv_text@) matches Some(table) ==> (table.len() > 0 ==> match header_columns(table[0]) {
            None => r == Err::<Vec<CsvRow>, ParseError>(ParseError::MissingColumn),
            Some(cols) => {
                &&& r is Ok <==> forall|k: int|
                    1 <= k < table.len() ==> row_error(cols, #[trigger] table[k]) is None
                &&& r matches Ok(rows) ==> rows@.len() == table.len() - 1 && forall|k: int|
                    0 <= k < rows@.len() ==> row_read(cols, table[k + 1], #[trigger] rows@[k])
                &&& r matches Err(e) ==> exists|k: int|
                    1 <= k < table.len() && row_error(cols, #[trigger] table[k]) == Some(e)
            },
        }),
{
    match read_table(csv_text) {
        Some(table) => rows_from_table(&table),
        None => Err(ParseError::Table),
    }
}

/// A row records a symptom when its category is `Symptom`; exports hold
/// other kinds of events too, which a store leaves out.
pub open spec fn is_symptom_row(row: CsvRow) -> bool {
    row.category@ == "Symptom"@
}

/// The rows of `rows` that record symptoms, in order.
pub open spec fn symptom_rows(rows: Seq<CsvRow>) -> Seq<CsvRow> {
    rows.filter(|row: CsvRow| is_symptom_row(row))
}

/// What is wrong with `row` as a symptom, in the order `Symptom::from`
/// checks it.
pub open spec fn symptom_error(row: CsvRow) -> Option<ParseError> {
    if name_of_detail(row.detail@) is None {
        Some(ParseError::BadDetail)
    } else if label_time_of_day(row.time_of_day@) is None {
        Some(ParseError::BadTimeOfDay)
    } else if decimal_u8(row.amount@) is None {
        Some(ParseError::BadSeverity)
    } else {
        None
    }
}

/// Row `k` of `rows` is the first that cannot be read as a symptom.
pub open spec fn first_bad_symptom(rows: Seq<CsvRow>, k: int) -> bool {
    &&& 0 <= k < rows.len()
    &&& symptom_error(rows[k]) is Some
    &&& forall|j: int| 0 <= j < k ==> symptom_error(#[trigger] rows[j]) is None
}

/// `records` are the symptoms read from `rows`, one for one.
pub open spec fn symptoms_read(rows: Seq<CsvRow>, records: Seq<Symptom>) -> bool {
    &&& records.len() == rows.len()
    &&& forall|k: int|
        0 <= k < records.len() ==> read_symptom(rows[k], Ok::<Symptom, ParseError>(#[trigger] records[k]))
}

/// Building a store from the symptom rows `rows` fails with `e`: the error
/// of the first row that cannot be read as a symptom, else `NoSpan` when one
/// of them has no part of the day.
pub open spec fn build_fails_with(rows: Seq<CsvRow>, e: ParseError) -> bool {
    ||| exists|k: int| first_bad_symptom(rows, k) && symptom_error(#[trigger] rows[k]) == Some(e)
    ||| {
        &&& e == ParseError::NoSpan
        &&& forall|k: int| 0 <= k < rows.len() ==> symptom_error(#[trigger] rows[k]) is None
        &&& exists|k: int|
            0 <= k < rows.len() && label_time_of_day((#[trigger] rows[k]).time_of_day@) == Some(
                TimeOfDay::Unset,
            )
    }
}

/// Whether `row` records a symptom.
pub fn is_symptom(row: &CsvRow) -> (r: bool)
    ensures
        r == is_symptom_row(*row),
{
    same_text(row.category.as_str(), "Symptom")
}

/// Builds a store from the rows that record symptoms. Fails with the error
/// of the first such row that cannot be read, else with `NoSpan` when one of
/// them has no part of the day.
pub fn create_data_manager(rows: Vec<CsvRow>) -> (r: Result<DataManager, ParseError>)
    ensures
        (exists|k: int| 0 <= k < symptom_rows(rows@).len() && symptom_error(
            #[trigger] symptom_rows(rows@)[k],
        ) is Some) ==> exists|k: int|
            first_bad_symptom(symptom_rows(rows@), k) && r == Err::<DataManager, ParseError>(
                symptom_error(#[trigger] symptom_rows(rows@)[k])->Some_0,
            ),
        (forall|k: int| 0 <= k < symptom_rows(rows@).len() ==> symptom_error(
            #[trigger] symptom_rows(rows@)[k],
        ) is None) ==> {
            &&& (r == Err::<DataManager, ParseError>(ParseError::NoSpan)) <==> exists|k: int|
                0 <= k < symptom_rows(rows@).len() && label_time_of_day(
                    (#[trigger] symptom_rows(rows@)[k]).time_of_day@,
                ) == Some(TimeOfDay::Unset)
            &&& r is Ok || r == Err::<DataManager, ParseError>(ParseError::NoSpan)
        },
        r matches Ok(m) ==> m.wf() && exists|records: Seq<Symptom>|
            symptoms_read(symptom_rows(rows@), records) && #[trigger] m.holds(records),
{
    let ghost pred = |row: CsvRow| is_symptom_row(row);
    let ghost all = symptom_rows(rows@);
    let mut symptoms: Vec<Symptom> = Vec::new();
    let n = rows.len();
    proof {
        reveal(Seq::filter);
        assert(rows@.subrange(0, 0) =~= Seq::<CsvRow>::empty());
        assert(rows@.subrange(0, n as int) =~= rows@);
        assert(rows@.subrange(0, 0).filter(pred) =~= Seq::<CsvRow>::empty());
        assert(all =~= rows@.subrange(0, 0).filter(pred) + rows@.subrange(0, n as int).filter(pred));
    }
    let mut i: usize = 0;
    while i < n
        invariant
            i <= n,
            n == rows@.len(),
            pred == (|row: CsvRow| is_symptom_row(row)),
            all == rows@.filter(pred),
            all == rows@.subrange(0, i as int).filter(pred) + rows@.subrange(i as int, n as int).filter(pred),
            symptoms@.len() == rows@.subrange(0, i as int).filter(pred).len(),
            forall|k: int| 0 <= k < symptoms@.len() ==> read_symptom(
                #[trigger] rows@.subrange(0, i as int).filter(pred)[k],
                Ok::<Symptom, ParseError>(symptoms@[k]),
            ),
        decreases n - i,
    {
        let ghost done = rows@.subrange(0, i as int).filter(pred);
        let ghost rest = rows@.subrange(i + 1, n as int).filter(pred);
        proof {
            assert(rows@.subrange(0, i + 1) =~= rows@.subrange(0, i as int).push(rows@[i as int]));
            rows@.subrange(0, i as int).lemma_filter_push(rows@[i as int], pred);
            assert(rows@.subrange(i as int, n as int) =~= seq![rows@[i as int]] + rows@.subrange(i + 1, n as int));
            Seq::filter_distributes_over_add(seq![rows@[i as int]], rows@.subrange(i + 1, n as int), pred);
            reveal(Seq::filter);
            assert(seq![rows@[i as int]].drop_last() =~= Seq::<CsvRow>::empty());
        }
        let row = &rows[i];
        if is_symptom(row) {
            let ghost upto = done.push(*row);
            assert(all =~= upto + rest);
            assert(all[done.len() as int] == *row);
            match Symptom::from(row) {
                Ok(symptom) => {
                    symptoms.push(symptom);
                    proof {
                        assert forall|k: int| 0 <= k < symptoms@.len() implies read_symptom(
                            #[trigger] upto[k],
                            Ok::<Symptom, ParseError>(symptoms@[k]),
                        ) by {
                            if k < done.len() {
                                assert(upto[k] == done[k]);
                            }
                        }
                    }
                },
                Err(e) => {
                    proof {
                        let k = done.len() as int;
                        assert forall|j: int| 0 <= j < k implies symptom_error(#[trigger] all[j]) is None by {
                            assert(all[j] == done[j]);
                            assert(read_symptom(done[j], Ok::<Symptom, ParseError>(symptoms@[j])));
                        }
                        assert(first_bad_symptom(all, k));
                    }
                    return Err(e);
                },
            }
        }
        proof {
            let single = seq![rows@[i as int]].filter(pred);
            assert(Seq::<CsvRow>::empty().filter(pred) =~= Seq::<CsvRow>::empty());
            assert(single =~= (if pred(rows@[i as int]) {
                seq![rows@[i as int]]
            } else {
                Seq::<CsvRow>::empty()
            }));
            assert(rows@.subrange(0, i + 1).filter(pred) =~= done + single);
            assert(all =~= rows@.subrange(0, i + 1).filter(pred) + rest);
        }
        i += 1;
    }
    proof {
        assert(rows@.subrange(0, n as int) =~= rows@);
        assert(rows@.subrange(n as int, n as int) =~= Seq::<CsvRow>::empty());
        reveal(Seq::filter);
        assert(all =~= rows@.filter(pred));
        assert forall|k: int| 0 <= k < all.len() implies symptom_error(#[trigger] all[k]) is None by {
            assert(read_symptom(all[k], Ok::<Symptom, ParseError>(symptoms@[k])));
        }
    }
    let ghost records = symptoms@;
    match DataManager::from(symptoms) {
        Ok(m) => {
            proof {
                assert(symptoms_read(all, records));
                assert forall|k: int| 0 <= k < all.len() implies label_time_of_day(
                    (#[trigger] all[k]).time_of_day@,
                ) != Some(TimeOfDay::Unset) by {
                    assert(read_symptom(all[k], Ok::<Symptom, ParseError>(records[k])));
                    assert(records[k].span_spec() is Ok);
                }
            }
            Ok(m)
        },
        Err(_) => {
            proof {
                let k = choose|k: int| 0 <= k < records.len() && (#[trigger] records[k]).span_spec() is Err;
                assert(read_symptom(all[k], Ok::<Symptom, ParseError>(records[k])));
            }
            Err(ParseError::NoSpan)
        },
    }
}

/// Reads an export into a store of its symptoms.
pub fn parse_into_data_manager_str(csv_text: &str) -> (r: Result<DataManager, ParseError>)
    ensures
        csv_table(csv_text@) is None ==> r == Err::<DataManager, ParseError>(ParseError::Table),
        csv_table(csv_text@) matches Some(table) ==> (table.len() > 0 && header_columns(table[0]) is None
            ==> r == Err::<DataManager, ParseError>(ParseError::MissingColumn)),
        csv_table(csv_text@) matches Some(table) ==> (table.len() > 0 && header_columns(table[0]) is Some
            && (exists|k: int|
            1 <= k < table.len() && row_error(header_columns(table[0])->Some_0, #[trigger] table[k]) is Some)
            ==> (r matches Err(e) && exists|k: int|
                1 <= k < table.len() && row_error(header_columns(table[0])->Some_0, #[trigger] table[k])
                    == Some(e))),
        r is Err && r->Err_0 != ParseError::Table && r->Err_0 != ParseError::MissingColumn
            && r->Err_0 != ParseError::ShortRow && r->Err_0 != ParseError::BadDate ==> exists|
            rows: Seq<CsvRow>,
        |
            #[trigger] table_rows(csv_table(csv_text@)->Some_0, rows) && build_fails_with(
                symptom_rows(rows),
                r->Err_0,
            ),
        (csv_table(csv_text@) matches Some(table) && (table.len() == 0 || (header_columns(table[0]) matches Some(cols)
            && forall|k: int| 1 <= k < table.len() ==> row_error(cols, #[trigger] table[k]) is None))
            && forall|rows: Seq<CsvRow>| #[trigger] table_rows(table, rows) ==> forall|k: int|
                0 <= k < symptom_rows(rows).len() ==> symptom_error(#[trigger] symptom_rows(rows)[k]) is None
                    && label_time_of_day(symptom_rows(rows)[k].time_of_day@) != Some(TimeOfDay::Unset)) ==> r is Ok,
        r matches Ok(m) ==> m.wf() && exists|rows: Seq<CsvRow>, records: Seq<Symptom>|
            #[trigger] table_rows(csv_table(csv_text@)->Some_0, rows) && symptoms_read(
                symptom_rows(rows),
                records,
            ) && #[trigger] m.holds(records),
{
    let rows = parse(csv_text)?;
    let ghost read = rows@;
    assert(table_rows(csv_table(csv_text@)->Some_0, read));
    let built = create_data_manager(rows);
    proof {
        if built is Err {
            let e = built->Err_0;
            if exists|k: int| 0 <= k < symptom_rows(read).len() && symptom_error(
                #[trigger] symptom_rows(read)[k],
            ) is Some {
                let k = choose|k: int|
                    first_bad_symptom(symptom_rows(read), k) && built == Err::<DataManager, ParseError>(
                        symptom_error(#[trigger] symptom_rows(read)[k])->Some_0,
                    );
                assert(symptom_error(symptom_rows(read)[k]) == Some(e));
            }
            assert(build_fails_with(symptom_rows(read), e));
        }
        if built is Ok {
            let m = built->Ok_0;
            let records = choose|records: Seq<Symptom>|
                symptoms_read(symptom_rows(read), records) && #[trigger] m.holds(records);
            assert(table_rows(csv_table(csv_text@)->Some_0, read) && symptoms_read(
                symptom_rows(read),
                records,
            ) && m.holds(records));
        }
    }
    built
}

} // verus!
