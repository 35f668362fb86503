//! The parts of the day that records are logged for, and the span each one
//! covers on a given date.
use crate::text::same_text;
use crate::time::{Date, OrderedNaiveDateTimeSpan, Timestamp};
use vstd::prelude::*;

verus! {

/// Seconds in one hour.
pub const SECONDS_PER_HOUR: u32 = 3600;

/// The part of the day a record was logged for. `Unset` stands for a record
/// logged with no part of the day.
#[derive(Clone, Copy, Debug, PartialEq, Eq, Structural)]
pub enum TimeOfDay {
    Unset,
    Pre,
    AM,
    MID,
    PM,
    AllDay,
}

/// Why the span of a record could not be derived.
#[derive(Clone, Copy, Debug, PartialEq, Eq, Structural)]
pub enum SpanError {
    /// The record has no part of the day that maps to a window.
    UnsupportedTimeOfDay,
}

/// The part of the day that a lowercase label names: `""` names
/// `TimeOfDay::Unset`; any other text names none.
pub open spec fn label_time_of_day(label: Seq<char>) -> Option<TimeOfDay> {
    if label == ""@ {
        Some(TimeOfDay::Unset)
    } else if label == "pre"@ {
        Some(TimeOfDay::Pre)
    } else if label == "am"@ {
        Some(TimeOfDay::AM)
    } else if label == "mid"@ {
        Some(TimeOfDay::MID)
    } else if label == "pm"@ {
        Some(TimeOfDay::PM)
    } else if label == "allday"@ {
        Some(TimeOfDay::AllDay)
    } else {
        None
    }
}

impl TimeOfDay {
    /// The window of the day this part covers, as seconds from midnight:
    /// six hours from 00:00, 06:00, 12:00 or 18:00, or 00:00 to 23:59:59 for
    /// the whole day.
    pub open spec fn window(self) -> Option<(nat, nat)> {
        match self {
            TimeOfDay::Unset => None,
            TimeOfDay::Pre => Some((0, 6 * 3600)),
            TimeOfDay::AM => Some((6 * 3600, 12 * 3600)),
            TimeOfDay::MID => Some((12 * 3600, 18 * 3600)),
            TimeOfDay::PM => Some((18 * 3600, 24 * 3600)),
            TimeOfDay::AllDay => Some((0, 23 * 3600 + 59 * 60 + 59)),
        }
    }

    /// The span this part of the day covers on `date`.
    pub open spec fn span_on(self, date: Date) -> Result<OrderedNaiveDateTimeSpan, SpanError> {
        match self.window() {
            Some(w) => Ok(
                OrderedNaiveDateTimeSpan {
                    start: Timestamp { seconds: (date.midnight() + w.0) as i64 },
                    end: Timestamp { seconds: (date.midnight() + w.1) as i64 },
                },
            ),
            None => Err(SpanError::UnsupportedTimeOfDay),
        }
    }

    /// Reads a lowercase label such as `"am"`.
    pub fn from_label(label: &str) -> (r: Option<TimeOfDay>)
        ensures
            r == label_time_of_day(label@),
    {
        if same_text(label, "") {
            Some(TimeOfDay::Unset)
        } else if same_text(label, "pre") {
            Some(TimeOfDay::Pre)
        } else if same_text(label, "am") {
            Some(TimeOfDay::AM)
        } else if same_text(label, "mid") {
            Some(TimeOfDay::MID)
        } else if same_text(label, "pm") {
            Some(TimeOfDay::PM)
        } else if same_text(label, "allday") {
            Some(TimeOfDay::AllDay)
        } else {
            None
        }
    }

    /// The span this part of the day covers on `date`; it fails for
    /// `TimeOfDay::Unset`.
    pub fn span(&self, date: Date) -> (r: Result<OrderedNaiveDateTimeSpan, SpanError>)
        ensures
            r == self.span_on(date),
            r matches Ok(s) ==> s.wf(),
    {
        let (from, to): (u32, u32) = match self {
            TimeOfDay::Unset => {
                return Err(SpanError::UnsupportedTimeOfDay);
            },
            TimeOfDay::Pre => (0, 6 * SECONDS_PER_HOUR),
            TimeOfDay::AM => (6 * SECONDS_PER_HOUR, 12 * SECONDS_PER_HOUR),
            TimeOfDay::MID => (12 * SECONDS_PER_HOUR, 18 * SECONDS_PER_HOUR),
            TimeOfDay::PM => (18 * SECONDS_PER_HOUR, 24 * SECONDS_PER_HOUR),
            TimeOfDay::AllDay => (0, 24 * SECONDS_PER_HOUR - 1),
        };
        Ok(OrderedNaiveDateTimeSpan { start: date.and_seconds(from), end: date.and_seconds(to) })
    }
}

/// On any date the four six-hour parts follow one another without
/// overlapping: each compares `Less` than the next, so a map keeps all four.
pub proof fn lemma_day_parts_in_order(date: Date)
    ensures
        TimeOfDay::Pre.span_on(date)->Ok_0.overlap_order(TimeOfDay::AM.span_on(date)->Ok_0)
            == core::cmp::Ordering::Less,
        TimeOfDay::AM.span_on(date)->Ok_0.overlap_order(TimeOfDay::MID.span_on(date)->Ok_0)
            == core::cmp::Ordering::Less,
        TimeOfDay::MID.span_on(date)->Ok_0.overlap_order(TimeOfDay::PM.span_on(date)->Ok_0)
            == core::cmp::Ordering::Less,
        TimeOfDay::Pre.span_on(date)->Ok_0.precedes(TimeOfDay::AM.span_on(date)->Ok_0),
        TimeOfDay::Pre.span_on(date)->Ok_0.wf(),
        TimeOfDay::AM.span_on(date)->Ok_0.wf(),
{
}

} // verus!
