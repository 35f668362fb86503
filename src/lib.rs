//! An in-memory store of time-stamped symptom records, grouped by symptom and
//! indexed by the time span each record covers, with overlap-based range
//! queries that produce chart points.

pub mod time;
pub mod text;
pub mod time_of_day;
pub mod date_map;
pub mod symptom;
pub mod scatter_plot;
pub mod data_manager;
pub mod provider;
pub mod parser;
