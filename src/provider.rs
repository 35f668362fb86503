//! Turns a chart request (an optional store, symptom and pair of dates) into
//! the points to draw.
use crate::data_manager::DataManager;
use crate::scatter_plot::{DateTimeValuePoint, ScatterPlot};
use crate::time::{Date, OrderedNaiveDateTimeSpan, Timestamp, SECONDS_PER_DAY};
use vstd::prelude::*;

verus! {

/// The day the default window starts on: 2021-11-19.
pub const DEFAULT_FIRST_DAY: i32 = 738113;

/// The day the default window ends on: 2021-11-25.
pub const DEFAULT_LAST_DAY: i32 = 738119;

/// The default anchors start at 11:30 of their days...
pub const DEFAULT_ANCHOR_FROM: u32 = 41400;

/// ...and end at 11:31.
pub const DEFAULT_ANCHOR_TO: u32 = 41460;

/// The span from second `from` to second `to` of day `day`.
pub open spec fn anchor_at(day: int, from: int, to: int) -> OrderedNaiveDateTimeSpan {
    OrderedNaiveDateTimeSpan {
        start: Timestamp { seconds: (day * SECONDS_PER_DAY + from) as i64 },
        end: Timestamp { seconds: (day * SECONDS_PER_DAY + to) as i64 },
    }
}

/// The lower anchor: the first second of the start date, or the default.
pub open spec fn lower_anchor(start_date: Option<Date>) -> OrderedNaiveDateTimeSpan {
    match start_date {
        Some(d) => anchor_at(d.days as int, 0, 1),
        None => anchor_at(DEFAULT_FIRST_DAY as int, DEFAULT_ANCHOR_FROM as int, DEFAULT_ANCHOR_TO as int),
    }
}

/// The upper anchor: 23:59:58 to 23:59:59 of the end date, or the default.
pub open spec fn upper_anchor(end_date: Option<Date>) -> OrderedNaiveDateTimeSpan {
    match end_date {
        Some(d) => anchor_at(d.days as int, SECONDS_PER_DAY - 2, SECONDS_PER_DAY - 1),
        None => anchor_at(DEFAULT_LAST_DAY as int, DEFAULT_ANCHOR_FROM as int, DEFAULT_ANCHOR_TO as int),
    }
}

/// The points a chart request yields: those of the chosen symptom (the first
/// name of the store when none is chosen) between the two anchors. `None`
/// without a store, for an unknown name, or for an empty store with no
/// symptom chosen.
pub open spec fn requested_points(
    data_manager: Option<DataManager>,
    symptom: Option<String>,
    start_date: Option<Date>,
    end_date: Option<Date>,
) -> Option<Seq<DateTimeValuePoint>> {
    match data_manager {
        None => None,
        Some(m) => match symptom {
            Some(name) => m.chart(name@, lower_anchor(start_date), upper_anchor(end_date)),
            None => if m.names().len() > 0 {
                m.chart(m.names()[0], lower_anchor(start_date), upper_anchor(end_date))
            } else {
                None
            },
        },
    }
}

/// `plot` is what the chart request yields.
pub open spec fn charted(
    data_manager: Option<DataManager>,
    symptom: Option<String>,
    start_date: Option<Date>,
    end_date: Option<Date>,
    plot: Option<ScatterPlot>,
) -> bool {
    match requested_points(data_manager, symptom, start_date, end_date) {
        Some(points) => plot matches Some(p) && p.points@ == points,
        None => plot is None,
    }
}

pub struct Provider {}

impl Provider {
    /// Charts the chosen symptom (or the store's first one) from the start of
    /// `start_date` to the end of `end_date`, each bound falling back to a
    /// fixed default day.
    pub fn fetch_chart(
        data_manager: &Option<DataManager>,
        symptom: &Option<String>,
        start_date: &Option<Date>,
        end_date: &Option<Date>,
    ) -> (r: Option<ScatterPlot>)
        requires
            data_manager matches Some(m) ==> m.wf(),
        ensures
            charted(*data_manager, *symptom, *start_date, *end_date, r),
    {
        let manager = match data_manager {
            Some(m) => m,
            None => {
                return None;
            },
        };
        let start_span = match start_date {
            Some(d) => OrderedNaiveDateTimeSpan { start: d.and_seconds(0), end: d.and_seconds(1) },
            None => {
                let d = Date::from_days(DEFAULT_FIRST_DAY);
                OrderedNaiveDateTimeSpan {
                    start: d.and_seconds(DEFAULT_ANCHOR_FROM),
                    end: d.and_seconds(DEFAULT_ANCHOR_TO),
                }
            },
        };
        let end_span = match end_date {
            Some(d) => OrderedNaiveDateTimeSpan {
                start: d.and_seconds((SECONDS_PER_DAY - 2) as u32),
                end: d.and_seconds((SECONDS_PER_DAY - 1) as u32),
            },
            None => {
                let d = Date::from_days(DEFAULT_LAST_DAY);
                OrderedNaiveDateTimeSpan {
                    start: d.and_seconds(DEFAULT_ANCHOR_FROM),
                    end: d.and_seconds(DEFAULT_ANCHOR_TO),
                }
            },
        };
        match symptom {
            Some(name) => manager.get_basic_symptoms_scatterplot(name.as_str(), &start_span, &end_span),
            None => {
                let names = manager.get_symptom_names();
                if names.len() == 0 {
                    None
                } else {
                    manager.get_basic_symptoms_scatterplot(names[0].as_str(), &start_span, &end_span)
                }
            },
        }
    }
}

/// Asking twice for the same chart of the same store yields the same points.
pub proof fn lemma_fetch_chart_idempotent(
    data_manager: Option<DataManager>,
    symptom: Option<String>,
    start_date: Option<Date>,
    end_date: Option<Date>,
    first: Option<ScatterPlot>,
    second: Option<ScatterPlot>,
)
    requires
        charted(data_manager, symptom, start_date, end_date, first),
        charted(data_manager, symptom, start_date, end_date, second),
    ensures
        first is None <==> second is None,
        first matches Some(a) ==> second matches Some(b) && a.points@ == b.points@,
{
}

} // verus!
