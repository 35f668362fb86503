//! A symptom record: what was felt, on which day, in which part of it, and
//! how badly.
use crate::parser::{captures, regex_captures, CsvRow, ParseError};
use crate::text::{decimal_u8, parse_severity};
use crate::time::{Date, OrderedNaiveDateTimeSpan};
use crate::time_of_day::{label_time_of_day, SpanError, TimeOfDay};
use vstd::prelude::*;

verus! {

/// How an export writes a symptom's detail: its name, then its severity in
/// words, as in `Neck pain (Moderate)`.
pub const NAME_PATTERN: &'static str = r"(.*) (\(Mild\)|\(Moderate\)|\(Severe\)|\(Unbearable\))";

/// The symptom name in a detail: what `NAME_PATTERN` captures before the
/// severity in words.
pub open spec fn name_of_detail(detail: Seq<char>) -> Option<Seq<char>> {
    match regex_captures(NAME_PATTERN@, detail) {
        Some(groups) => name_group(groups),
        None => None,
    }
}

/// The name that `NAME_PATTERN` captures (group 1), if it took part in the
/// match.
pub open spec fn name_group(groups: Seq<Option<Seq<char>>>) -> Option<Seq<char>> {
    if groups.len() > 1 && groups[1] is Some {
        Some(groups[1]->Some_0)
    } else {
        None
    }
}

/// Picks the name out of what `NAME_PATTERN` captured in a detail.
pub fn name_from_captures(groups: &Vec<Option<String>>) -> (r: Option<String>)
    ensures
        match name_group(groups.deep_view()) {
            Some(name) => r matches Some(s) && s@ == name,
            None => r is None,
        },
{
    if groups.len() <= 1 {
        return None;
    }
    assert(groups.deep_view()[1] == groups@[1].deep_view());
    match &groups[1] {
        Some(name) => Some(name.clone()),
        None => None,
    }
}

/// `r` is what reading `row` as a symptom gives: the name from its detail,
/// its part of the day and its severity, each checked in that order.
pub open spec fn read_symptom(row: CsvRow, r: Result<Symptom, ParseError>) -> bool {
    match name_of_detail(row.detail@) {
        None => r == Err::<Symptom, ParseError>(ParseError::BadDetail),
        Some(name) => match label_time_of_day(row.time_of_day@) {
            None => r == Err::<Symptom, ParseError>(ParseError::BadTimeOfDay),
            Some(time_of_day) => match decimal_u8(row.amount@) {
                None => r == Err::<Symptom, ParseError>(ParseError::BadSeverity),
                Some(severity) => r matches Ok(s) && s.name@ == name && s.date == row.date
                    && s.time_of_day == time_of_day && s.severity == severity,
            },
        },
    }
}

#[derive(Clone, Debug, PartialEq)]
pub struct Symptom {
    pub name: String,
    pub date: Date,
    pub time_of_day: TimeOfDay,
    pub severity: u8,
}

impl Symptom {
    /// Reads the symptom that a row of an export records.
    pub fn from(row: &CsvRow) -> (r: Result<Symptom, ParseError>)
        ensures
            read_symptom(*row, r),
    {
        let name = match Symptom::parse_name(row.detail.as_str()) {
            Some(name) => name,
            None => {
                return Err(ParseError::BadDetail);
            },
        };
        let time_of_day = match TimeOfDay::from_label(row.time_of_day.as_str()) {
            Some(time_of_day) => time_of_day,
            None => {
                return Err(ParseError::BadTimeOfDay);
            },
        };
        let severity = match parse_severity(row.amount.as_str()) {
            Some(severity) => severity,
            None => {
                return Err(ParseError::BadSeverity);
            },
        };
        Ok(Symptom { name, date: row.date, time_of_day, severity })
    }

    /// The symptom name in a detail such as `Neck pain (Moderate)`.
    fn parse_name(detail: &str) -> (r: Option<String>)
        ensures
            match name_of_detail(detail@) {
                Some(name) => r matches Some(s) && s@ == name,
                None => r is None,
            },
    {
        match captures(NAME_PATTERN, detail) {
            Some(groups) => name_from_captures(&groups),
            None => None,
        }
    }

    /// The span of time the record covers.
    pub open spec fn span_spec(&self) -> Result<OrderedNaiveDateTimeSpan, SpanError> {
        self.time_of_day.span_on(self.date)
    }

    /// The span of time the record covers: its part of the day on its date.
    pub fn date_time_span(&self) -> (r: Result<OrderedNaiveDateTimeSpan, SpanError>)
        ensures
            r == self.span_spec(),
            r matches Ok(s) ==> s.wf(),
    {
        self.time_of_day.span(self.date)
    }
}

} // verus!
