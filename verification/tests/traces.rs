use similarity_metrics::event_log::{Column, EventLog, EventLogError};
use similarity_metrics::string_distances::{damerau_levenshtein_on_logs, Similarity, SimilarityError};
use similarity_metrics::lines::split_lines;
use similarity_metrics::trace::concatenate_columns;

fn column(name: &str, values: &[&str]) -> Column {
    Column { name: name.to_string(), values: values.iter().map(|v| v.to_string()).collect() }
}

#[test]
fn main_test_concatenate_columns() {
    let df = EventLog::new(vec![
        column("a", &["foo", "bar", "baz"]),
        column("b", &["_one", "_two", "_three"]),
        column("c", &["_a", "_b", "_c"]),
    ])
    .unwrap();

    let result = concatenate_columns(&df, &["a", "b", "c"]);

    let expected = vec!["foo_one_a", "bar_two_b", "baz_three_c"];

    assert_eq!(result, expected);
}

#[test]
fn string_distances_test_concatenate_columns() {
    let df = EventLog::new(vec![
        column("a", &["foo", "bar", "baz"]),
        column("b", &["_one", "_two", "_three"]),
        column("c", &["_a", "_b", "_c"]),
    ])
    .unwrap();

    let result = concatenate_columns(&df, &["a", "b", "c"]);

    let expected = vec!["foo_one_a", "bar_two_b", "baz_three_c"];

    assert_eq!(result, expected);
}

#[test]
fn columns_are_joined_in_the_order_named() {
    let log = EventLog::new(vec![
        column("a", &["1", "2"]),
        column("b", &["x", "y"]),
        column("c", &["-", "+"]),
    ])
    .unwrap();
    assert_eq!(concatenate_columns(&log, &["c", "a"]), vec!["-1", "+2"]);
    assert_eq!(concatenate_columns(&log, &["b", "c", "a"]), vec!["x-1", "y+2"]);
    assert_eq!(concatenate_columns(&log, &["a", "b", "b"]), vec!["1xx", "2yy"]);
}

#[test]
fn naming_the_first_column_again_appends_what_was_built() {
    let log = EventLog::new(vec![column("a", &["1", "2"]), column("b", &["x", "y"])]).unwrap();
    assert_eq!(concatenate_columns(&log, &["a", "a"]), vec!["11", "22"]);
    assert_eq!(concatenate_columns(&log, &["a", "b", "a"]), vec!["1x1x", "2y2y"]);
    assert_eq!(concatenate_columns(&log, &["a", "a", "b"]), vec!["11x", "22y"]);
}

#[test]
fn a_log_without_events_has_an_empty_trace() {
    let log = EventLog::new(vec![column("a", &[]), column("b", &[])]).unwrap();
    assert_eq!(log.height(), 0);
    assert_eq!(concatenate_columns(&log, &["a", "b"]), Vec::<String>::new());
}

#[test]
fn fields_are_not_separated_in_a_token() {
    let one = EventLog::new(vec![column("a", &["ab"]), column("b", &["c"])]).unwrap();
    let two = EventLog::new(vec![column("a", &["a"]), column("b", &["bc"])]).unwrap();
    assert_eq!(concatenate_columns(&one, &["a", "b"]), concatenate_columns(&two, &["a", "b"]));
    let same_widths = EventLog::new(vec![column("a", &["ab"]), column("b", &["d"])]).unwrap();
    assert_ne!(
        concatenate_columns(&one, &["a", "b"]),
        concatenate_columns(&same_widths, &["a", "b"])
    );
}

#[test]
fn columns_must_have_one_height() {
    let built = EventLog::new(vec![column("a", &["1", "2"]), column("b", &["x"])]);
    assert_eq!(built.unwrap_err(), EventLogError::ShapeMismatch);
}

#[test]
fn column_names_must_differ() {
    let built = EventLog::new(vec![column("a", &["1"]), column("b", &["x"]), column("a", &["2"])]);
    assert_eq!(built.unwrap_err(), EventLogError::Duplicate);
}

#[test]
fn the_first_column_at_fault_decides_the_error() {
    let built = EventLog::new(vec![
        column("a", &["1"]),
        column("a", &["2"]),
        column("c", &["x", "y"]),
    ]);
    assert_eq!(built.unwrap_err(), EventLogError::Duplicate);
    let built = EventLog::new(vec![
        column("a", &["1"]),
        column("c", &["x", "y"]),
        column("a", &["2"]),
    ]);
    assert_eq!(built.unwrap_err(), EventLogError::ShapeMismatch);
    let built = EventLog::new(vec![column("a", &["1"]), column("a", &["x", "y"])]);
    assert_eq!(built.unwrap_err(), EventLogError::ShapeMismatch);
}

#[test]
fn a_log_may_have_no_columns() {
    let log = EventLog::new(vec![]).unwrap();
    assert_eq!(log.height(), 0);
    assert_eq!(log.column("a").unwrap_err(), EventLogError::NotFound);
}

#[test]
fn columns_are_found_by_name() {
    let log = EventLog::new(vec![column("a", &["1", "2"]), column("b", &["x", "y"])]).unwrap();
    assert_eq!(log.height(), 2);
    assert_eq!(log.column("b").unwrap(), &vec!["x".to_string(), "y".to_string()]);
    assert_eq!(log.column("a").unwrap(), &vec!["1".to_string(), "2".to_string()]);
    assert_eq!(log.column("A").unwrap_err(), EventLogError::NotFound);
    assert_eq!(log.column("").unwrap_err(), EventLogError::NotFound);
}

#[test]
fn logs_are_compared_by_their_traces() {
    let one = EventLog::new(vec![
        column("activity", &["open", "approve", "close"]),
        column("resource", &["ann", "bob", "ann"]),
        column("unused", &["1", "2", "3"]),
    ])
    .unwrap();
    let two = EventLog::new(vec![
        column("resource", &["ann", "bob", "cy", "ann"]),
        column("activity", &["open", "approve", "approve", "close"]),
    ])
    .unwrap();
    let (distance, score) = damerau_levenshtein_on_logs(&one, &two, &["activity", "resource"]);
    assert_eq!(distance, 1);
    assert_eq!(score, Ok(Similarity { distance: 1, length: 3 }));
    let (distance, score) = damerau_levenshtein_on_logs(&two, &one, &["activity", "resource"]);
    assert_eq!(distance, 1);
    assert_eq!(score, Ok(Similarity { distance: 1, length: 4 }));
}

#[test]
fn an_empty_first_log_has_no_similarity() {
    let one = EventLog::new(vec![column("a", &[]), column("b", &[])]).unwrap();
    let two = EventLog::new(vec![column("a", &["x", "y"]), column("b", &["1", "2"])]).unwrap();
    let (distance, score) = damerau_levenshtein_on_logs(&one, &two, &["a", "b"]);
    assert_eq!(distance, 2);
    assert_eq!(score, Err(SimilarityError::EmptyReference));
}

#[test]
fn lines_end_at_line_feeds() {
    assert_eq!(split_lines("a\nb\nc"), vec!["a", "b", "c"]);
    assert_eq!(split_lines("a\nb\nc\n"), vec!["a", "b", "c"]);
    assert_eq!(split_lines("one line"), vec!["one line"]);
    assert_eq!(split_lines(""), Vec::<String>::new());
    assert_eq!(split_lines("\n"), vec![""]);
    assert_eq!(split_lines("a\n\nb"), vec!["a", "", "b"]);
    assert_eq!(split_lines("\n\n"), vec!["", ""]);
}

#[test]
fn a_carriage_return_before_a_line_feed_is_dropped() {
    assert_eq!(split_lines("a\r\nb\r\n"), vec!["a", "b"]);
    assert_eq!(split_lines("\r\n"), vec![""]);
    assert_eq!(split_lines("a\r\r\nb"), vec!["a\r", "b"]);
    assert_eq!(split_lines("a\rb\nc"), vec!["a\rb", "c"]);
    assert_eq!(split_lines("a\r"), vec!["a\r"]);
    assert_eq!(split_lines("\r"), vec!["\r"]);
    assert_eq!(split_lines("a\n\r"), vec!["a", "\r"]);
}

#[test]
fn lines_are_split_as_the_standard_library_splits_them() {
    for text in ["", "x", "x\n", "x\r\n", "x\r", "\r\r\n\r", "é\nü\r\n漢字", "a\n\n\nb\n", "\n\r\n\n"] {
        let expected: Vec<String> = text.lines().map(|l| l.to_string()).collect();
        assert_eq!(split_lines(text), expected);
    }
}

#[test]
fn traces_read_from_lines_are_compared() {
    let one = split_lines("open\napprove\nclose\n");
    let two = split_lines("open\r\nclose");
    assert_eq!(similarity_metrics::string_distances::damerau_levenshtein(&one, &two), 1);
}
