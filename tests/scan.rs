use csv_detect_missing::{csv_detect_missing, Arguments, Comparison, Difference, Format, Mode, Scanner};

fn args(format: Format, comparison: Comparison, gap: &str, delimiter: &str, index: u16, mode: Mode) -> Arguments {
    let difference = format.parse_diff(gap.to_string()).unwrap();
    Arguments {
        delimiter: delimiter.to_string(),
        index,
        format,
        comparison,
        difference,
        comment: "#".to_string(),
        allow_empty: false,
        verbose: false,
        mode,
        path: "-".to_string(),
    }
}

fn lines(v: &[&str]) -> Vec<String> {
    v.iter().map(|s| s.to_string()).collect()
}

#[test]
fn diff_mode_reports_large_gaps() {
    let a = args(Format::UInt, Comparison::GreaterThan, "5", ",", 1, Mode::Diff(",".to_string()));
    let r = csv_detect_missing(a, &lines(&["10,a", "20,b", "16,c"]));
    assert_eq!(r.output, "10,20\n");
    assert_eq!(r.error, None);
}

#[test]
fn filter_mode_echoes_close_lines() {
    let a = args(Format::RFC3339, Comparison::LessThan, "1h", "", 1, Mode::Filter);
    let input = lines(&["2024-05-01T10:00:00Z", "2024-05-01T10:30:00Z"]);
    let r = csv_detect_missing(a, &input);
    assert_eq!(r.output, "2024-05-01T10:00:00Z\n2024-05-01T10:30:00Z\n");
    assert_eq!(r.error, None);
}

#[test]
fn filter_mode_separates_pairs() {
    let a = args(Format::Int, Comparison::GreaterOrEqual, "10", ";", 2, Mode::Filter);
    let input = lines(&["a;0", "b;10", "c;15", "d;30"]);
    let r = csv_detect_missing(a, &input);
    assert_eq!(r.output, "a;0\nb;10\n\nc;15\nd;30\n");
}

#[test]
fn empty_line_aborts_with_its_number() {
    let a = args(Format::UInt, Comparison::GreaterThan, "5", ",", 1, Mode::Diff(",".to_string()));
    let r = csv_detect_missing(a, &lines(&["1", "", "30"]));
    assert_eq!(r.output, "");
    assert_eq!(r.error, Some("line 2 is empty".to_string()));
}

#[test]
fn output_before_an_error_is_kept() {
    let a = args(Format::UInt, Comparison::GreaterThan, "5", ",", 1, Mode::Diff(",".to_string()));
    let r = csv_detect_missing(a, &lines(&["1", "30", "x"]));
    assert_eq!(r.output, "1,30\n");
    assert_eq!(
        r.error,
        Some("line 3 field 'x' could not be parsed: invalid digit found in string".to_string())
    );
}

#[test]
fn empty_lines_skipped_when_allowed() {
    let mut a = args(Format::UInt, Comparison::GreaterThan, "5", ",", 2, Mode::Diff("".to_string()));
    a.allow_empty = true;
    let r = csv_detect_missing(a, &lines(&["a,1", "", "b", "c,", "d,30"]));
    assert_eq!(r.output, "1,30\n");
    assert_eq!(r.error, None);
}

#[test]
fn missing_and_empty_fields_fail() {
    let a = args(Format::UInt, Comparison::GreaterThan, "5", ",", 2, Mode::Filter);
    let r = csv_detect_missing(a, &lines(&["a,1", "b"]));
    assert_eq!(r.error, Some("line 2 is invalid: no field could be found at index 2".to_string()));
    let a = args(Format::UInt, Comparison::GreaterThan, "5", ",", 2, Mode::Filter);
    let r = csv_detect_missing(a, &lines(&["a,1", "b,"]));
    assert_eq!(r.error, Some("line 2 is invalid: empty field at index 2".to_string()));
}

#[test]
fn comments_are_skipped() {
    let a = args(Format::UInt, Comparison::GreaterThan, "5", ",", 1, Mode::Diff(",".to_string()));
    let r = csv_detect_missing(a, &lines(&["# header", "1", "  # note", "10"]));
    assert_eq!(r.output, "1,10\n");
    assert_eq!(r.error, None);
}

#[test]
fn empty_delimiter_needs_index_one() {
    let a = args(Format::UInt, Comparison::GreaterThan, "5", "", 2, Mode::Filter);
    let r = csv_detect_missing(a, &lines(&["1", "", "x"]));
    assert_eq!(r.output, "");
    assert_eq!(r.error, Some("supplied index and delimiter are incompatible".to_string()));
    let a = args(Format::UInt, Comparison::GreaterThan, "5", "", 2, Mode::Filter);
    assert!(Scanner::new(a).is_err());
}

#[test]
fn tab_and_multi_character_delimiters() {
    let a = args(Format::Int, Comparison::LessThan, "0", "\\t", 2, Mode::Diff("".to_string()));
    let r = csv_detect_missing(a, &lines(&["x\t5", "y\t3"]));
    assert_eq!(r.output, "5\t3\n");
    let a = args(Format::Int, Comparison::LessThan, "0", "::", 3, Mode::Diff("\\t".to_string()));
    let r = csv_detect_missing(a, &lines(&["a::b::9::c", "a:::b::4"]));
    assert_eq!(r.output, "9\t4\n");
}

#[test]
fn diff_mode_renders_timestamps() {
    let a = args(Format::Unix, Comparison::GreaterThan, "1", ",", 1, Mode::Diff(" -> ".to_string()));
    let r = csv_detect_missing(a, &lines(&["0,a", "3600,b", "7201,c"]));
    assert_eq!(r.output, "1970-01-01T01:00:00Z -> 1970-01-01T02:00:01Z\n");
}

#[test]
fn running_twice_gives_the_same_output() {
    let input = lines(&["1", "9", "10", "30", "31"]);
    let a = args(Format::UInt, Comparison::GreaterThan, "5", ",", 1, Mode::Diff(",".to_string()));
    let b = args(Format::UInt, Comparison::GreaterThan, "5", ",", 1, Mode::Diff(",".to_string()));
    let r1 = csv_detect_missing(a, &input);
    let r2 = csv_detect_missing(b, &input);
    assert_eq!(r1.output, r2.output);
    assert_eq!(r1.output, "1,9\n10,30\n");
}

#[test]
fn scanner_streams_line_by_line() {
    let a = args(Format::UInt, Comparison::GreaterThan, "5", ",", 1, Mode::Diff(",".to_string()));
    let mut s = Scanner::new(a).unwrap();
    assert_eq!(s.feed("10,a"), Ok(String::new()));
    assert_eq!(s.feed("20,b"), Ok("10,20\n".to_string()));
    assert_eq!(s.feed("16,c"), Ok(String::new()));
    assert_eq!(s.lines_read(), 3);
    assert_eq!(Difference::Number(1), Difference::Number(1));
}
