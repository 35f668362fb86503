#![allow(non_snake_case)]

use chrono::Datelike;
use std::cmp::Ordering;
use symptom_charts::data_manager::DataManager;
use symptom_charts::date_map::BTreeDateMap;
use symptom_charts::provider::Provider;
use symptom_charts::scatter_plot::DateTimeValuePoint;
use symptom_charts::symptom::Symptom;
use symptom_charts::time::{Date, OrderedNaiveDateTimeSpan, Timestamp};
use symptom_charts::time_of_day::{SpanError, TimeOfDay};

fn day(year: i32, month: u32, day: u32) -> Date {
    let date = chrono::NaiveDate::from_ymd_opt(year, month, day).unwrap();
    Date::from_days(date.num_days_from_ce())
}

fn at(date: Date, hour: u32, minute: u32, second: u32) -> Timestamp {
    date.and_hms(hour, minute, second)
}

fn record(name: &str, date: Date, time_of_day: TimeOfDay, severity: u8) -> Symptom {
    Symptom { name: name.to_string(), date, time_of_day, severity }
}

fn point(x: Timestamp, y: u8) -> DateTimeValuePoint {
    DateTimeValuePoint { x, y }
}

#[test]
fn GetSymptomDateRange_DoesThingsIdk() {
    let symptom_name = "Back (mid) pain";
    let symptoms = vec![
        record(symptom_name, day(2022, 1, 5), TimeOfDay::Pre, 1),
        record(symptom_name, day(2022, 1, 6), TimeOfDay::Pre, 3),
    ];
    let data_man = DataManager::from(symptoms.clone()).unwrap();

    let range = data_man.get_symptom_date_range(symptom_name);

    assert!(range.is_some());
    assert_eq!(range.as_ref().expect("").0.date(), symptoms[0].date);
    assert_eq!(range.as_ref().expect("").1.date(), symptoms[1].date);
}

#[test]
fn BTreeDateMap_WithOrderedNaiveDateTimeSpan_IsOrderedCorrectly() {
    let mut map = BTreeDateMap::<bool>::new();
    let start = OrderedNaiveDateTimeSpan::new(
        at(day(2017, 1, 1), 12, 0, 0),
        at(day(2017, 1, 2), 18, 0, 0),
    )
    .unwrap();
    let end = OrderedNaiveDateTimeSpan::new(
        at(day(2018, 1, 1), 12, 0, 0),
        at(day(2018, 1, 2), 18, 0, 0),
    )
    .unwrap();
    map.insert(start.clone(), false);
    map.insert(end, true);

    assert_eq!(map.min().unwrap(), (&start, &false))
}

#[test]
fn day_numbers_follow_chrono() {
    assert_eq!(day(2021, 11, 19).days, symptom_charts::provider::DEFAULT_FIRST_DAY);
    assert_eq!(day(2021, 11, 25).days, symptom_charts::provider::DEFAULT_LAST_DAY);
    assert_eq!(day(1, 1, 1).days, 1);
    assert_eq!(at(day(2022, 1, 5), 6, 0, 0).seconds, 738160 * 86400 + 6 * 3600);
}

#[test]
fn timestamp_date_is_the_day_holding_it() {
    let d = day(2022, 1, 5);
    assert_eq!(at(d, 0, 0, 0).date(), d);
    assert_eq!(at(d, 23, 59, 59).date(), d);
    assert_eq!(d.and_seconds(86400).date(), day(2022, 1, 6));
    let before = Date::from_days(-1);
    assert_eq!(before.and_seconds(5).date(), before);
}

#[test]
fn span_needs_start_before_end() {
    let d = day(2022, 1, 5);
    assert!(OrderedNaiveDateTimeSpan::new(at(d, 1, 0, 0), at(d, 1, 0, 0)).is_none());
    assert!(OrderedNaiveDateTimeSpan::new(at(d, 2, 0, 0), at(d, 1, 0, 0)).is_none());
    let s = OrderedNaiveDateTimeSpan::new(at(d, 1, 0, 0), at(d, 2, 0, 0)).unwrap();
    assert_eq!(s.start, at(d, 1, 0, 0));
    assert_eq!(s.end, at(d, 2, 0, 0));
}

#[test]
fn day_part_windows() {
    let d = day(2022, 1, 5);
    let pre = TimeOfDay::Pre.span(d).unwrap();
    assert_eq!((pre.start, pre.end), (at(d, 0, 0, 0), at(d, 6, 0, 0)));
    let am = TimeOfDay::AM.span(d).unwrap();
    assert_eq!((am.start, am.end), (at(d, 6, 0, 0), at(d, 12, 0, 0)));
    let mid = TimeOfDay::MID.span(d).unwrap();
    assert_eq!((mid.start, mid.end), (at(d, 12, 0, 0), at(d, 18, 0, 0)));
    let pm = TimeOfDay::PM.span(d).unwrap();
    assert_eq!((pm.start, pm.end), (at(d, 18, 0, 0), at(day(2022, 1, 6), 0, 0, 0)));
    let all = TimeOfDay::AllDay.span(d).unwrap();
    assert_eq!((all.start, all.end), (at(d, 0, 0, 0), at(d, 23, 59, 59)));
    assert_eq!(TimeOfDay::Unset.span(d), Err(SpanError::UnsupportedTimeOfDay));
}

#[test]
fn day_part_labels() {
    assert_eq!(TimeOfDay::from_label("pre"), Some(TimeOfDay::Pre));
    assert_eq!(TimeOfDay::from_label("am"), Some(TimeOfDay::AM));
    assert_eq!(TimeOfDay::from_label("mid"), Some(TimeOfDay::MID));
    assert_eq!(TimeOfDay::from_label("pm"), Some(TimeOfDay::PM));
    assert_eq!(TimeOfDay::from_label("allday"), Some(TimeOfDay::AllDay));
    assert_eq!(TimeOfDay::from_label(""), Some(TimeOfDay::Unset));
    assert_eq!(TimeOfDay::from_label("AM"), None);
    assert_eq!(TimeOfDay::from_label("evening"), None);
}

#[test]
fn overlap_comparison() {
    let d = day(2022, 1, 5);
    let pre = TimeOfDay::Pre.span(d).unwrap();
    let am = TimeOfDay::AM.span(d).unwrap();
    let all = TimeOfDay::AllDay.span(d).unwrap();
    assert_eq!(pre.overlap_cmp(&am), Ordering::Less);
    assert_eq!(am.overlap_cmp(&pre), Ordering::Greater);
    assert_eq!(pre.overlap_cmp(&all), Ordering::Equal);
    assert_eq!(pre.overlap_cmp(&pre), Ordering::Equal);
    assert!(pre.overlaps_with(&all));
    assert!(!pre.overlaps_with(&am));
}

#[test]
fn same_span_twice_keeps_one_entry_the_last() {
    let d = day(2022, 1, 5);
    let mut map = BTreeDateMap::new();
    map.insert(TimeOfDay::Pre.span(d).unwrap(), record("Headache", d, TimeOfDay::Pre, 1));
    map.insert(TimeOfDay::Pre.span(d).unwrap(), record("Headache", d, TimeOfDay::Pre, 4));
    assert_eq!(map.len(), 1);
    assert_eq!(map.values()[0].severity, 4);
}

#[test]
fn disjoint_day_parts_keep_both_entries() {
    let d = day(2022, 1, 5);
    let mut map = BTreeDateMap::new();
    map.insert(TimeOfDay::AM.span(d).unwrap(), 2u8);
    map.insert(TimeOfDay::Pre.span(d).unwrap(), 1u8);
    assert_eq!(map.len(), 2);
    assert_eq!(map.values(), vec![&1u8, &2u8]);
    assert_eq!(map.min().unwrap().0, &TimeOfDay::Pre.span(d).unwrap());
    assert_eq!(map.max().unwrap().0, &TimeOfDay::AM.span(d).unwrap());
}

#[test]
fn insert_drops_every_overlapped_entry() {
    let d = day(2022, 1, 5);
    let mut map = BTreeDateMap::new();
    map.insert(TimeOfDay::Pre.span(d).unwrap(), 'p');
    map.insert(TimeOfDay::AM.span(d).unwrap(), 'a');
    map.insert(TimeOfDay::PM.span(d).unwrap(), 'e');
    map.insert(TimeOfDay::Pre.span(day(2022, 1, 6)).unwrap(), 'n');
    map.insert(TimeOfDay::AllDay.span(d).unwrap(), 'w');
    assert_eq!(map.values(), vec![&'w', &'n']);
}

#[test]
fn range_keeps_overlapping_entries_in_order() {
    let d = day(2022, 1, 5);
    let mut map = BTreeDateMap::new();
    map.insert(TimeOfDay::PM.span(day(2022, 1, 4)).unwrap(), 0u8);
    map.insert(TimeOfDay::Pre.span(d).unwrap(), 1u8);
    map.insert(TimeOfDay::MID.span(d).unwrap(), 2u8);
    map.insert(TimeOfDay::Pre.span(day(2022, 1, 6)).unwrap(), 3u8);
    let lower = OrderedNaiveDateTimeSpan::new(at(d, 0, 0, 0), at(d, 0, 0, 1)).unwrap();
    let upper = OrderedNaiveDateTimeSpan::new(at(d, 23, 59, 58), at(d, 23, 59, 59)).unwrap();
    let found: Vec<u8> = map.range(&lower, &upper).into_iter().map(|(_, v)| *v).collect();
    assert_eq!(found, vec![1, 2]);
    assert!(BTreeDateMap::<u8>::new().min().is_none());
}

fn headache_store() -> DataManager {
    let d = day(2022, 1, 5);
    DataManager::from(vec![
        record("Headache", d, TimeOfDay::AM, 1),
        record("Headache", d, TimeOfDay::Pre, 1),
    ])
    .unwrap()
}

#[test]
fn headache_scenario() {
    let d = day(2022, 1, 5);
    let store = headache_store();
    assert_eq!(store.get_symptom_date_range("Headache"), Some((at(d, 0, 0, 0), at(d, 6, 0, 0))));
    let plot = Provider::fetch_chart(
        &Some(store),
        &Some("Headache".to_string()),
        &Some(d),
        &Some(d),
    )
    .unwrap();
    assert_eq!(plot.points, vec![point(at(d, 0, 0, 0), 1), point(at(d, 6, 0, 0), 1)]);
}

#[test]
fn unknown_symptom_has_no_result() {
    let d = day(2022, 1, 5);
    let store = headache_store();
    assert!(store.get_symptom_date_range("Nausea").is_none());
    assert!(store.get_all_sorted_symptoms("Nausea").is_none());
    let lower = OrderedNaiveDateTimeSpan::new(at(d, 0, 0, 0), at(d, 0, 0, 1)).unwrap();
    assert!(store.get_basic_symptoms_scatterplot("Nausea", &lower, &lower).is_none());
    let far = day(2030, 1, 1);
    let empty = Provider::fetch_chart(&Some(store), &Some("Headache".to_string()), &Some(far), &Some(far));
    assert_eq!(empty.unwrap().points, vec![]);
    let store = headache_store();
    assert!(Provider::fetch_chart(&Some(store), &Some("Nausea".to_string()), &Some(d), &Some(d)).is_none());
    assert!(Provider::fetch_chart(&None, &Some("Headache".to_string()), &Some(d), &Some(d)).is_none());
}

#[test]
fn names_are_the_distinct_symptoms() {
    let d = day(2022, 1, 5);
    let store = DataManager::from(vec![
        record("Headache", d, TimeOfDay::AM, 1),
        record("Neck pain", d, TimeOfDay::AM, 1),
        record("Headache", d, TimeOfDay::PM, 2),
        record("Back pain", d, TimeOfDay::Pre, 3),
        record("Neck pain", d, TimeOfDay::MID, 1),
    ])
    .unwrap();
    let names: Vec<&str> = store.get_symptom_names().into_iter().map(|s| s.as_str()).collect();
    assert_eq!(names, vec!["Headache", "Neck pain", "Back pain"]);
    let empty = DataManager::from(vec![]).unwrap();
    assert!(empty.get_symptom_names().is_empty());
    assert!(Provider::fetch_chart(&Some(empty), &None, &None, &None).is_none());
}

#[test]
fn build_fails_on_a_record_without_a_span() {
    let d = day(2022, 1, 5);
    let built = DataManager::from(vec![
        record("Headache", d, TimeOfDay::AM, 1),
        record("Headache", d, TimeOfDay::Unset, 1),
    ]);
    assert_eq!(built.err(), Some(SpanError::UnsupportedTimeOfDay));
}

#[test]
fn date_range_is_ordered_and_sorted_records_ascend() {
    let store = DataManager::from(vec![
        record("Headache", day(2022, 1, 7), TimeOfDay::MID, 2),
        record("Headache", day(2022, 1, 5), TimeOfDay::PM, 1),
        record("Headache", day(2022, 1, 6), TimeOfDay::Pre, 3),
        record("Headache", day(2022, 1, 5), TimeOfDay::AllDay, 5),
    ])
    .unwrap();
    let (first, last) = store.get_symptom_date_range("Headache").unwrap();
    assert!(first.seconds <= last.seconds);
    assert_eq!(first, at(day(2022, 1, 5), 0, 0, 0));
    assert_eq!(last, at(day(2022, 1, 7), 12, 0, 0));
    let sorted = store.get_all_sorted_symptoms("Headache").unwrap();
    let severities: Vec<u8> = sorted.iter().map(|s| s.severity).collect();
    assert_eq!(severities, vec![5, 3, 2]);
    let starts: Vec<Timestamp> = sorted.iter().map(|s| s.date_time_span().unwrap().start).collect();
    assert!(starts.windows(2).all(|w| w[0].seconds <= w[1].seconds));
}

#[test]
fn fetch_chart_twice_gives_the_same_points() {
    let d = day(2022, 1, 5);
    let store = Some(headache_store());
    let first = Provider::fetch_chart(&store, &None, &Some(d), &Some(d)).unwrap();
    let second = Provider::fetch_chart(&store, &None, &Some(d), &Some(d)).unwrap();
    assert_eq!(first.points, second.points);
    assert_eq!(first.points.len(), 2);
}

#[test]
fn fetch_chart_defaults_to_the_fixed_window() {
    let store = Some(
        DataManager::from(vec![
            record("Headache", day(2021, 11, 18), TimeOfDay::PM, 1),
            record("Headache", day(2021, 11, 19), TimeOfDay::AM, 2),
            record("Headache", day(2021, 11, 19), TimeOfDay::MID, 3),
            record("Headache", day(2021, 11, 25), TimeOfDay::AM, 4),
            record("Headache", day(2021, 11, 25), TimeOfDay::MID, 5),
        ])
        .unwrap(),
    );
    let plot = Provider::fetch_chart(&store, &None, &None, &None).unwrap();
    let severities: Vec<u8> = plot.points.iter().map(|p| p.y).collect();
    assert_eq!(severities, vec![2, 3, 4]);
}

#[test]
fn empty_span_compares_equal_with_itself() {
    let d = day(2022, 1, 5);
    let empty = OrderedNaiveDateTimeSpan { start: at(d, 6, 0, 0), end: at(d, 6, 0, 0) };
    let same = empty;
    assert_eq!(empty.overlap_cmp(&empty), Ordering::Equal);
    assert_eq!(empty.overlap_cmp(&same), Ordering::Equal);
    let am = TimeOfDay::AM.span(d).unwrap();
    let pre = TimeOfDay::Pre.span(d).unwrap();
    assert_eq!(pre.overlap_cmp(&empty), Ordering::Less);
    assert_eq!(empty.overlap_cmp(&pre), Ordering::Greater);
    assert_eq!(empty.overlap_cmp(&am), Ordering::Equal);
}
