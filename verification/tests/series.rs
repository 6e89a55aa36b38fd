use series_csv::{parse_file, parse_file_with_year, parse_line, Entry};
use series_csv::{FileTable, SeriesTable};

fn lines_of(text: &[&str]) -> Vec<String> {
    text.iter().map(|s| s.to_string()).collect()
}

fn series(table: &SeriesTable, name: &str) -> Vec<(u64, f32)> {
    table
        .get(&name.to_string())
        .expect("series missing")
        .iter()
        .map(|e| (e.timestamp, e.value.parse::<f32>().unwrap()))
        .collect()
}

#[test]
fn entry_new_is_zero() {
    let e = Entry::new();
    assert_eq!(e.timestamp, 0);
    assert_eq!(e.value, "0");
    assert_eq!(e.value.parse::<f32>().unwrap(), 0.0f32);
}

#[test]
fn end_to_end_two_columns() {
    let lines = lines_of(&[
        "Time,A,B",
        "2021-01-01 00:00:00,1.0,2.0",
        "2021-01-01 00:01:00,3.0,4.0",
    ]);
    let mut table = SeriesTable::new();
    parse_file_with_year(&lines, "fb", "2026", &mut table);
    assert_eq!(table.series_count(), 2);
    let ts0 = 1_609_459_200_000u64;
    let ts1 = ts0 + 60_000;
    assert_eq!(series(&table, "A"), vec![(ts0, 1.0), (ts1, 3.0)]);
    assert_eq!(series(&table, "B"), vec![(ts0, 2.0), (ts1, 4.0)]);
}

#[test]
fn parse_twice_is_identical() {
    // idempotence: the same file parses to element-for-element equal series
    let lines = lines_of(&[
        "Time,A",
        "2021-01-01 00:02:00,3.0",
        "2021-01-01 00:00:00,1.0",
        "2021-01-01 00:00:00,2.0",
        "2021-01-01 00:01:00,4.0",
    ]);
    let mut t1 = SeriesTable::new();
    let mut t2 = SeriesTable::new();
    parse_file_with_year(&lines, "fb", "2026", &mut t1);
    parse_file_with_year(&lines, "fb", "2026", &mut t2);
    assert_eq!(series(&t1, "A"), series(&t2, "A"));
}

#[test]
fn result_is_sorted_ascending() {
    let lines = lines_of(&[
        "Time,A",
        "2021-01-01 00:05:00,5.0",
        "2021-01-01 00:01:00,1.0",
        "2021-01-01 00:03:00,3.0",
    ]);
    let mut table = SeriesTable::new();
    parse_file_with_year(&lines, "fb", "2026", &mut table);
    let s = series(&table, "A");
    assert_eq!(s.len(), 3);
    for w in s.windows(2) {
        assert!(w[0].0 <= w[1].0);
    }
    assert_eq!(s, vec![
        (1_609_459_260_000, 1.0),
        (1_609_459_380_000, 3.0),
        (1_609_459_500_000, 5.0),
    ]);
}

#[test]
fn sort_is_stable_on_equal_timestamps() {
    let lines = lines_of(&[
        "Time,A",
        "2021-01-01 00:01:00,9.0",
        "2021-01-01 00:00:00,1.0",
        "2021-01-01 00:00:00,2.0",
        "2021-01-01 00:00:00,3.0",
    ]);
    let mut table = SeriesTable::new();
    parse_file_with_year(&lines, "fb", "2026", &mut table);
    let s = series(&table, "A");
    // the three equal-timestamp entries keep their original order
    assert_eq!(s[0].1, 1.0);
    assert_eq!(s[1].1, 2.0);
    assert_eq!(s[2].1, 3.0);
    assert_eq!(s[3].1, 9.0);
}

#[test]
fn bad_value_discards_whole_line() {
    // atomic line contract: one bad value discards the line's earlier entries
    let lines = lines_of(&[
        "Time,A,B",
        "2021-01-01 00:00:00,1.0,oops",
        "2021-01-01 00:01:00,3.0,4.0",
    ]);
    let mut table = SeriesTable::new();
    parse_file_with_year(&lines, "fb", "2026", &mut table);
    let ts1 = 1_609_459_260_000u64;
    assert_eq!(series(&table, "A"), vec![(ts1, 3.0)]);
    assert_eq!(series(&table, "B"), vec![(ts1, 4.0)]);
}

#[test]
fn bad_timestamp_skips_line_only() {
    let lines = lines_of(&[
        "Time,A",
        "not a time,1.0",
        "2021-01-01 00:00:00,2.0",
    ]);
    let mut table = SeriesTable::new();
    parse_file_with_year(&lines, "fb", "2026", &mut table);
    assert_eq!(series(&table, "A"), vec![(1_609_459_200_000, 2.0)]);
}

#[test]
fn surplus_columns_are_dropped() {
    let lines = lines_of(&[
        "Time,A",
        "2021-01-01 00:00:00,1.0,2.0,3.0",
    ]);
    let mut table = SeriesTable::new();
    parse_file_with_year(&lines, "fb", "2026", &mut table);
    assert_eq!(table.series_count(), 1);
    assert_eq!(series(&table, "A"), vec![(1_609_459_200_000, 1.0)]);
}

#[test]
fn missing_columns_fill_what_they_can() {
    let lines = lines_of(&[
        "Time,A,B",
        "2021-01-01 00:00:00,1.0",
        "2021-01-01 00:01:00,2.0,3.0",
    ]);
    let mut table = SeriesTable::new();
    parse_file_with_year(&lines, "fb", "2026", &mut table);
    let ts0 = 1_609_459_200_000u64;
    let ts1 = ts0 + 60_000;
    assert_eq!(series(&table, "A"), vec![(ts0, 1.0), (ts1, 2.0)]);
    assert_eq!(series(&table, "B"), vec![(ts1, 3.0)]);
}

#[test]
fn empty_header_yields_empty_table() {
    let lines = lines_of(&["", "2021-01-01 00:00:00,1.0"]);
    let mut table = SeriesTable::new();
    parse_file_with_year(&lines, "fb", "2026", &mut table);
    assert_eq!(table.series_count(), 0);
}

#[test]
fn no_lines_yield_empty_table() {
    let lines: Vec<String> = Vec::new();
    let mut table = SeriesTable::new();
    parse_file_with_year(&lines, "fb", "2026", &mut table);
    assert_eq!(table.series_count(), 0);
}

#[test]
fn duplicate_names_merge_in_column_order() {
    // two empty header columns both resolve to the fallback and merge
    let lines = lines_of(&[
        "Time,,",
        "2021-01-01 00:00:00,1.0,2.0",
    ]);
    let mut table = SeriesTable::new();
    parse_file_with_year(&lines, "temp", "2026", &mut table);
    assert_eq!(table.series_count(), 1);
    let ts0 = 1_609_459_200_000u64;
    assert_eq!(series(&table, "temp"), vec![(ts0, 1.0), (ts0, 2.0)]);
}

#[test]
fn quoted_timestamp_and_value_fields() {
    let lines = lines_of(&[
        "Time,A",
        "\"2021-01-01 00:00:00\",\"1.5\"",
    ]);
    let mut table = SeriesTable::new();
    parse_file_with_year(&lines, "fb", "2026", &mut table);
    assert_eq!(series(&table, "A"), vec![(1_609_459_200_000, 1.5)]);
}

#[test]
fn decimal_comma_splits_into_next_column() {
    // an unquoted decimal comma acts as a separator: 3,5 fills two columns
    let lines = lines_of(&[
        "Time,A,B",
        "2021-01-01 00:00:00,3,5",
    ]);
    let mut table = SeriesTable::new();
    parse_file_with_year(&lines, "fb", "2026", &mut table);
    assert_eq!(series(&table, "A"), vec![(1_609_459_200_000, 3.0)]);
    assert_eq!(series(&table, "B"), vec![(1_609_459_200_000, 5.0)]);
}

#[test]
fn parse_line_reports_entries_and_flag() {
    let (entries, err) = parse_line("2021-01-01 00:00:00,1.0,2.0", "2026");
    assert!(!err);
    assert_eq!(entries.len(), 2);
    assert_eq!(entries[0].timestamp, 1_609_459_200_000);
    assert_eq!(entries[0].value, "1.0");
    assert_eq!(entries[1].value, "2.0");

    let (entries, err) = parse_line("not a time,1.0", "2026");
    assert!(err);
    assert!(entries.is_empty());

    let (_, err) = parse_line("2021-01-01 00:00:00,1.0,bad,2.0", "2026");
    assert!(err);
}

#[test]
fn parse_file_with_clock_year_matches_explicit_inputs() {
    // timestamps that carry their own year do not depend on the clock
    let lines = lines_of(&[
        "Time,A",
        "2021-01-01 00:00:00,1.0",
    ]);
    let mut table = SeriesTable::new();
    parse_file(&lines, "fb", &mut table);
    assert_eq!(series(&table, "A"), vec![(1_609_459_200_000, 1.0)]);
}

#[test]
fn file_table_replaces_on_reparse() {
    // multi-file replacement: the second parse fully replaces the first
    let first = lines_of(&["Time,Old", "2021-01-01 00:00:00,1.0"]);
    let second = lines_of(&["Time,New", "2021-01-02 00:00:00,2.0"]);
    let id = "foo".to_string();

    let mut files = FileTable::new();
    let mut t1 = SeriesTable::new();
    parse_file_with_year(&first, "foo", "2026", &mut t1);
    files.insert(&id, t1);

    let mut t2 = SeriesTable::new();
    parse_file_with_year(&second, "foo", "2026", &mut t2);
    files.insert(&id, t2);

    assert_eq!(files.file_ids(), vec!["foo".to_string()]);
    let stored = files.get(&id).expect("file missing");
    assert_eq!(stored.series_count(), 1);
    assert!(stored.get(&"Old".to_string()).is_none());
    assert!(stored.get(&"New".to_string()).is_some());
}

#[test]
fn series_names_in_insertion_order() {
    let lines = lines_of(&["Time,B,A,C", "2021-01-01 00:00:00,1,2,3"]);
    let mut table = SeriesTable::new();
    parse_file_with_year(&lines, "fb", "2026", &mut table);
    assert_eq!(
        table.series_names(),
        vec!["B".to_string(), "A".to_string(), "C".to_string()]
    );
}
