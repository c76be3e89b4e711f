use building_automation::clock::{timestamp_from, timestamp_of};
use building_automation::human::Individual;
use building_automation::weather::{extract_weather_data, pick_columns, split_chars};
use chrono::{NaiveTime, TimeDelta};

fn chars(s: &str) -> Vec<char> {
    s.chars().collect()
}

fn split(s: &str, separator: &str) -> Vec<String> {
    split_chars(&chars(s), &chars(separator)).iter().map(|p| p.iter().collect()).collect()
}

#[test]
fn text_is_split_as_the_standard_library_splits_it() {
    for (s, separator) in [
        ("a;b;c", ";"),
        ("a;b;c;", ";"),
        (";a", ";"),
        ("", ";"),
        (";;", ";"),
        ("abc", ";"),
        ("a::b:c", "::"),
        ("aaa", "aa"),
        ("abc", ""),
        ("", ""),
        ("line\nline\n", "\n"),
    ] {
        let expected: Vec<String> = s.split(separator).map(|p| p.to_string()).collect();
        assert_eq!(split(s, separator), expected, "{:?} by {:?}", s, separator);
    }
}

#[test]
fn wanted_columns_are_joined_with_the_separator() {
    let fields: Vec<Vec<char>> = vec![chars("a"), chars("bb"), chars("")];
    let pick = |c: Vec<u32>| {
        pick_columns(&fields, &c, &chars(";")).map(|r| r.iter().collect::<String>())
    };
    assert_eq!(pick(vec![1, 0]), Some("bb;a;".to_string()));
    assert_eq!(pick(vec![2, 2, 1]), Some(";;bb;".to_string()));
    assert_eq!(pick(vec![]), Some("".to_string()));
    assert_eq!(pick(vec![0, 3]), None);
}

const DATA: &str = "id;date;temp\n1;2020-01-01;3\n1;2020-01-02;4\n1;2020-01-03;5\n1;2020-01-04;6\n";

#[test]
fn records_between_the_dates_are_kept() {
    let rows = extract_weather_data(DATA, "2020-01-02", "2020-01-03", &vec![1, 2], ";");
    assert_eq!(
        rows,
        Some(vec!["2020-01-02;4;".to_string(), "2020-01-03;5;".to_string()])
    );
}

#[test]
fn a_stretch_may_open_again_and_stay_open() {
    let data = "a;1\nb;2\nc;3\na;4\nb;5";
    assert_eq!(
        extract_weather_data(data, "a", "b", &vec![1], ";"),
        Some(vec!["1;".to_string(), "2;".to_string(), "4;".to_string(), "5;".to_string()])
    );
    assert_eq!(
        extract_weather_data(data, "c", "never", &vec![0], ";"),
        Some(vec!["c;".to_string(), "a;".to_string(), "b;".to_string()])
    );
    assert_eq!(
        extract_weather_data(data, "a", "a", &vec![0], ";"),
        Some(vec!["a;".to_string(), "a;".to_string()])
    );
    assert_eq!(extract_weather_data(data, "x", "b", &vec![0], ";"), Some(Vec::new()));
    assert_eq!(extract_weather_data("", "x", "b", &vec![0], ";"), Some(Vec::new()));
}

#[test]
fn a_missing_column_leaves_no_records() {
    assert_eq!(extract_weather_data(DATA, "2020-01-02", "2020-01-03", &vec![3], ";"), None);
    assert_eq!(extract_weather_data(DATA, "2020-01-04", "x", &vec![1], ";"), None);
    assert_eq!(
        extract_weather_data(DATA, "2020-01-09", "x", &vec![7], ";"),
        Some(Vec::new())
    );
}

#[test]
fn times_of_day_become_milliseconds() {
    assert_eq!(timestamp_from(0, 0), 0);
    assert_eq!(timestamp_from(1, 999_999), 1000);
    assert_eq!(timestamp_from(86_399, 999_999_999), 86_399_999);
    assert_eq!(timestamp_from(86_399, 1_999_999_999), 86_400_999);
    assert_eq!(timestamp_of(&NaiveTime::from_hms_opt(0, 0, 0).unwrap()), 0);
    assert_eq!(timestamp_of(&NaiveTime::from_hms_milli_opt(8, 0, 1, 250).unwrap()), 28_801_250);
    assert_eq!(
        timestamp_of(&NaiveTime::from_hms_nano_opt(23, 59, 59, 999_999_999).unwrap()),
        86_399_999
    );
    assert_eq!(
        timestamp_of(&NaiveTime::from_hms_milli_opt(23, 59, 59, 1_500).unwrap()),
        86_400_500
    );
}

#[test]
fn individuals_keep_what_they_were_given() {
    let from = NaiveTime::from_hms_opt(8, 0, 0).unwrap();
    let to = NaiveTime::from_hms_opt(18, 0, 0).unwrap();
    let speed = TimeDelta::try_seconds(40).unwrap();
    let individual = Individual::new(50, from, to, 3, speed);
    assert_eq!(individual.get_number_of_movable_objects(), 50);
    assert_eq!(individual.get_number_of_random_moves(), 3);
    assert_eq!(individual.get_time_of_creation(), from);
    assert_eq!(individual.get_time_of_deletion(), to);
    assert_eq!(individual.get_speed(), speed);
}
