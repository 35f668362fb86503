//! The points handed to the chart.
use crate::time::Timestamp;
use vstd::prelude::*;

verus! {

/// One point of a chart: when a record's span starts, and its severity.
#[derive(Clone, Copy, Debug, PartialEq, Eq, Structural)]
pub struct DateTimeValuePoint {
    pub x: Timestamp,
    pub y: u8,
}

/// The points of a chart, in ascending order of time.
#[derive(Clone, Debug)]
pub struct ScatterPlot {
    pub points: Vec<DateTimeValuePoint>,
}

} // verus!
