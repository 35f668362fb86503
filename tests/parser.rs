#![allow(non_snake_case)]

use chrono::Datelike;
use symptom_charts::parser::{
    create_data_manager, deserialize, is_symptom, parse, parse_into_data_manager_str, rows_from_table,
    CsvRow, ParseError,
};
use symptom_charts::symptom::Symptom;
use symptom_charts::text::parse_severity;
use symptom_charts::time::Date;
use symptom_charts::time_of_day::TimeOfDay;

fn day(year: i32, month: u32, day: u32) -> Date {
    let date = chrono::NaiveDate::from_ymd_opt(year, month, day).unwrap();
    Date::from_days(date.num_days_from_ce())
}

fn row(date: Date, time_of_day: &str, category: &str, amount: &str, detail: &str) -> CsvRow {
    CsvRow {
        date,
        weekday: "Wednesday".to_string(),
        time_of_day: time_of_day.to_string(),
        category: category.to_string(),
        amount: amount.to_string(),
        detail: detail.to_string(),
        notes: "".to_string(),
    }
}

#[test]
fn Parse_ForBearableCsvString_ProducesCsvRow() {
    let data = r#"date,weekday,time of day,category,rating/amount,detail,notes
"8th Dec 2021","Wednesday","mid","Symptom","2","Neck pain (Moderate)","""#;

    let result = parse(data).unwrap();

    let expected_row = CsvRow {
        date: day(2021, 12, 8),
        weekday: "Wednesday".to_string(),
        time_of_day: "mid".to_string(),
        category: "Symptom".to_string(),
        amount: "2".to_string(),
        detail: "Neck pain (Moderate)".to_string(),
        notes: "".to_string(),
    };
    assert_eq!(result.len(), 1);
    assert_eq!(result.first().unwrap(), &expected_row);
}

#[test]
fn Parse_ForCsvContainingOnlySymptoms_CorrectlyParsesSymptoms() {
    let text = r#"date,weekday,time of day,category,rating/amount,detail,notes
"5th Jan 2022","Wednesday","am","Symptom","1","Headache (Mild)",""
"5th Jan 2022","Wednesday","am","Symptom","1","Neck pain (Mild)",""
"5th Jan 2022","Wednesday","mid","Symptom","1","Neck pain (Mild)",""
"5th Jan 2022","Wednesday","pm","Symptom","1","Neck pain (Mild)",""
"5th Jan 2022","Wednesday","pre","Symptom","1","Back (lower) pain (Mild)",""
"5th Jan 2022","Wednesday","am","Symptom","2","Back (lower) pain (Moderate)",""
"5th Jan 2022","Wednesday","mid","Symptom","2","Back (lower) pain (Moderate)",""
"5th Jan 2022","Wednesday","pm","Symptom","2","Back (lower) pain (Moderate)",""
"5th Jan 2022","Wednesday","pre","Symptom","1","Back (mid) pain (Mild)",""
"5th Jan 2022","Wednesday","am","Symptom","3","Back (mid) pain (Severe)",""
"5th Jan 2022","Wednesday","mid","Symptom","3","Back (mid) pain (Severe)",""
"5th Jan 2022","Wednesday","pm","Symptom","4","Back (mid) pain (Unbearable)","""#;
    let date = day(2022, 1, 5);

    let data_man = parse_into_data_manager_str(text).unwrap();

    let expected_symptoms = vec!["Headache", "Neck pain", "Back (lower) pain", "Back (mid) pain"];
    let mut actual_symptoms: Vec<&str> = data_man.get_symptom_names().into_iter().map(|s| s.as_str()).collect();
    let mut expected_bag = expected_symptoms.clone();
    actual_symptoms.sort();
    expected_bag.sort();
    assert_eq!(expected_bag, actual_symptoms);

    let expected_mid_pain = vec![
        Symptom { date, name: "Back (mid) pain".to_string(), severity: 1, time_of_day: TimeOfDay::Pre },
        Symptom { date, name: "Back (mid) pain".to_string(), severity: 3, time_of_day: TimeOfDay::AM },
        Symptom { date, name: "Back (mid) pain".to_string(), severity: 3, time_of_day: TimeOfDay::MID },
        Symptom { date, name: "Back (mid) pain".to_string(), severity: 4, time_of_day: TimeOfDay::PM },
    ];
    let actual_mid_pain: Vec<Symptom> = data_man
        .get_all_sorted_symptoms(expected_symptoms[3])
        .unwrap()
        .into_iter()
        .map(|s| s.to_owned())
        .collect();
    assert_eq!(expected_mid_pain, actual_mid_pain);
}

#[test]
fn dates_read_as_exports_write_them() {
    assert_eq!(deserialize("8th Dec 2021"), Some(day(2021, 12, 8)));
    assert_eq!(deserialize("1st Jan 2022"), Some(day(2022, 1, 1)));
    assert_eq!(deserialize("22nd Feb 2020"), Some(day(2020, 2, 22)));
    assert_eq!(deserialize("31st Feb 2021"), None);
    assert_eq!(deserialize("2021-12-08"), None);
    assert_eq!(deserialize(""), None);
}

#[test]
fn severities_read_as_bytes() {
    assert_eq!(parse_severity("0"), Some(0));
    assert_eq!(parse_severity("2"), Some(2));
    assert_eq!(parse_severity("+7"), Some(7));
    assert_eq!(parse_severity("007"), Some(7));
    assert_eq!(parse_severity("255"), Some(255));
    assert_eq!(parse_severity("256"), None);
    assert_eq!(parse_severity("1000"), None);
    assert_eq!(parse_severity(""), None);
    assert_eq!(parse_severity("+"), None);
    assert_eq!(parse_severity("-1"), None);
    assert_eq!(parse_severity("1a"), None);
    assert_eq!(parse_severity(" 1"), None);
}

#[test]
fn symptom_from_row() {
    let d = day(2022, 1, 5);
    let symptom = Symptom::from(&row(d, "am", "Symptom", "3", "Back (mid) pain (Severe)")).unwrap();
    assert_eq!(symptom, Symptom { name: "Back (mid) pain".to_string(), date: d, time_of_day: TimeOfDay::AM, severity: 3 });
    let unset = Symptom::from(&row(d, "", "Symptom", "1", "Headache (Mild)")).unwrap();
    assert_eq!(unset.time_of_day, TimeOfDay::Unset);
    assert_eq!(Symptom::from(&row(d, "am", "Symptom", "1", "Headache")), Err(ParseError::BadDetail));
    assert_eq!(Symptom::from(&row(d, "dusk", "Symptom", "1", "Headache (Mild)")), Err(ParseError::BadTimeOfDay));
    assert_eq!(Symptom::from(&row(d, "am", "Symptom", "x", "Headache (Mild)")), Err(ParseError::BadSeverity));
}

#[test]
fn only_symptom_rows_reach_the_store() {
    let d = day(2022, 1, 5);
    assert!(is_symptom(&row(d, "am", "Symptom", "1", "Headache (Mild)")));
    assert!(!is_symptom(&row(d, "am", "Mood", "1", "Happy")));
    let store = create_data_manager(vec![
        row(d, "am", "Mood", "4", "Happy"),
        row(d, "am", "Symptom", "2", "Headache (Moderate)"),
        row(d, "pm", "Sleep", "8", "no severity here"),
    ])
    .unwrap();
    let names: Vec<&String> = store.get_symptom_names();
    assert_eq!(names, vec!["Headache"]);
}

#[test]
fn store_errors_from_rows() {
    let d = day(2022, 1, 5);
    let bad_detail = create_data_manager(vec![
        row(d, "am", "Symptom", "2", "Headache (Moderate)"),
        row(d, "am", "Symptom", "x", "Headache"),
        row(d, "am", "Symptom", "x", "Headache (Mild)"),
    ]);
    assert_eq!(bad_detail.err(), Some(ParseError::BadDetail));
    let no_span = create_data_manager(vec![row(d, "", "Symptom", "2", "Headache (Moderate)")]);
    assert_eq!(no_span.err(), Some(ParseError::NoSpan));
}

fn table(rows: &[&[&str]]) -> Vec<Vec<String>> {
    rows.iter().map(|r| r.iter().map(|f| f.to_string()).collect()).collect()
}

#[test]
fn rows_follow_the_header() {
    let header: &[&str] = &["notes", "detail", "rating/amount", "category", "time of day", "weekday", "date", "extra"];
    let rows = rows_from_table(&table(&[
        header,
        &["n", "Headache (Mild)", "1", "Symptom", "pre", "Monday", "3rd Jan 2022", "x"],
    ]))
    .unwrap();
    assert_eq!(rows.len(), 1);
    assert_eq!(rows[0].date, day(2022, 1, 3));
    assert_eq!(rows[0].detail, "Headache (Mild)");
    assert_eq!(rows[0].time_of_day, "pre");
    assert_eq!(rows[0].notes, "n");
    assert_eq!(rows_from_table(&vec![]).unwrap().len(), 0);
    assert_eq!(rows_from_table(&table(&[header])).unwrap().len(), 0);
}

#[test]
fn table_errors() {
    let header: &[&str] = &["date", "weekday", "time of day", "category", "rating/amount", "detail", "notes"];
    let missing: &[&str] = &["date", "weekday", "time of day", "category", "rating/amount", "detail"];
    assert_eq!(rows_from_table(&table(&[missing])).err(), Some(ParseError::MissingColumn));
    assert_eq!(
        rows_from_table(&table(&[header, &["3rd Jan 2022", "Monday"]])).err(),
        Some(ParseError::ShortRow)
    );
    assert_eq!(
        rows_from_table(&table(&[header, &["yesterday", "Monday", "am", "Symptom", "1", "Headache (Mild)", ""]])).err(),
        Some(ParseError::BadDate)
    );
    assert_eq!(parse("a,b\n1,2,3\n").err(), Some(ParseError::Table));
    assert_eq!(parse("").unwrap().len(), 0);
}

fn groups(found: &[Option<&str>]) -> Vec<Option<String>> {
    found.iter().map(|g| g.map(|s| s.to_string())).collect()
}

#[test]
fn date_fields_join_day_month_and_year() {
    let found = groups(&[Some("8th Dec 2021"), Some("8"), Some("th"), Some("Dec"), Some("2021")]);
    assert_eq!(symptom_charts::parser::join_date_fields(&found), Some("8Dec2021".to_string()));
    let missing = groups(&[Some("x"), Some("8"), Some("th"), None, Some("2021")]);
    assert_eq!(symptom_charts::parser::join_date_fields(&missing), None);
    assert_eq!(symptom_charts::parser::join_date_fields(&groups(&[Some("x")])), None);
}

#[test]
fn name_comes_from_the_first_group() {
    let found = groups(&[Some("Neck pain (Moderate)"), Some("Neck pain"), Some("(Moderate)")]);
    assert_eq!(symptom_charts::symptom::name_from_captures(&found), Some("Neck pain".to_string()));
    assert_eq!(symptom_charts::symptom::name_from_captures(&groups(&[Some("x"), None])), None);
    assert_eq!(symptom_charts::symptom::name_from_captures(&groups(&[Some("x")])), None);
}

#[test]
fn loading_an_export_reports_each_error() {
    assert_eq!(parse_into_data_manager_str("a,b\n1,2,3\n").err(), Some(ParseError::Table));
    assert_eq!(parse_into_data_manager_str("date,weekday\n").err(), Some(ParseError::MissingColumn));
    let header = "date,weekday,time of day,category,rating/amount,detail,notes\n";
    let bad_date = format!("{}\"yesterday\",\"Monday\",\"am\",\"Symptom\",\"1\",\"Headache (Mild)\",\"\"\n", header);
    assert_eq!(parse_into_data_manager_str(&bad_date).err(), Some(ParseError::BadDate));
    let bad_detail = format!("{}\"5th Jan 2022\",\"Wednesday\",\"am\",\"Symptom\",\"1\",\"Headache\",\"\"\n", header);
    assert_eq!(parse_into_data_manager_str(&bad_detail).err(), Some(ParseError::BadDetail));
    let no_span = format!("{}\"5th Jan 2022\",\"Wednesday\",\"\",\"Symptom\",\"1\",\"Headache (Mild)\",\"\"\n", header);
    assert_eq!(parse_into_data_manager_str(&no_span).err(), Some(ParseError::NoSpan));
    let other = format!("{}\"5th Jan 2022\",\"Wednesday\",\"\",\"Mood\",\"x\",\"Happy\",\"\"\n", header);
    assert!(parse_into_data_manager_str(&other).unwrap().get_symptom_names().is_empty());
    assert!(parse_into_data_manager_str("").unwrap().get_symptom_names().is_empty());
}
