use lecho::number::parse_index;
use lecho::select::{field_at, line_at, select, SelectError};
use lecho::split::{join_lines, split_line};
use lecho::{parse, Response};

#[test]
fn parse_splits_on_newlines() {
    let lines = parse(String::from("alpha\nbeta\ngamma"));
    assert_eq!(lines, vec!["alpha", "beta", "gamma"]);
}

#[test]
fn parse_keeps_trailing_empty_line() {
    let lines = parse(String::from("alpha\nbeta\n"));
    assert_eq!(lines, vec!["alpha", "beta", ""]);
}

#[test]
fn parse_empty_source_is_one_empty_line() {
    let lines = parse(String::from(""));
    assert_eq!(lines, vec![""]);
}

#[test]
fn parse_keeps_carriage_returns() {
    let lines = parse(String::from("a\r\nb"));
    assert_eq!(lines, vec!["a\r", "b"]);
}

#[test]
fn line_in_range_is_returned_unmodified() {
    let lines = parse(String::from("first\nsecond\nthird"));
    assert_eq!(line_at(&lines, 1), Ok(String::from("first")));
    assert_eq!(line_at(&lines, 2), Ok(String::from("second")));
    assert_eq!(line_at(&lines, 3), Ok(String::from("third")));
}

#[test]
fn line_beyond_count_reports_both_numbers() {
    let lines = parse(String::from("first\nsecond\nthird"));
    assert_eq!(
        line_at(&lines, 5),
        Err(SelectError::LineOutOfRange { requested: 5, available: 3 })
    );
}

#[test]
fn line_zero_is_out_of_range() {
    let lines = parse(String::from("first\nsecond"));
    assert_eq!(
        line_at(&lines, 0),
        Err(SelectError::LineOutOfRange { requested: 0, available: 2 })
    );
}

#[test]
fn second_field_of_comma_line() {
    assert_eq!(field_at("a,b,c", ",", 2), Ok(String::from("b")));
}

#[test]
fn fourth_field_of_three_is_out_of_range() {
    assert_eq!(
        field_at("a,b,c", ",", 4),
        Err(SelectError::FieldOutOfRange { requested: 4, available: 3 })
    );
}

#[test]
fn semicolon_delimiter_first_field() {
    assert_eq!(field_at("a;b;c", ";", 1), Ok(String::from("a")));
}

#[test]
fn field_zero_is_out_of_range() {
    assert_eq!(
        field_at("a,b", ",", 0),
        Err(SelectError::FieldOutOfRange { requested: 0, available: 2 })
    );
}

#[test]
fn absent_delimiter_leaves_one_field() {
    assert_eq!(field_at("abc", ",", 1), Ok(String::from("abc")));
}

#[test]
fn multi_character_delimiter() {
    assert_eq!(split_line("a--b--c", "--"), vec!["a", "b", "c"]);
}

#[test]
fn overlapping_delimiter_is_taken_leftmost_first() {
    assert_eq!(split_line("aaa", "aa"), vec!["", "a"]);
}

#[test]
fn split_of_bare_delimiter_is_two_empty_fields() {
    assert_eq!(split_line(",", ","), vec!["", ""]);
}

#[test]
fn second_of_two_piped_lines() {
    let lines = vec![String::from("x"), String::from("y")];
    assert_eq!(select(&lines, 2, false, ",", 2), Ok(String::from("y")));
}

#[test]
fn select_line_mode_ignores_delimiter() {
    let lines = vec![String::from("a,b,c")];
    assert_eq!(select(&lines, 1, false, ",", 2), Ok(String::from("a,b,c")));
}

#[test]
fn select_csv_mode_picks_field() {
    let lines = vec![String::from("a,b,c"), String::from("d,e,f")];
    assert_eq!(select(&lines, 2, true, ",", 3), Ok(String::from("f")));
}

#[test]
fn select_reports_line_bound_before_field_bound() {
    let lines = vec![String::from("a,b")];
    assert_eq!(
        select(&lines, 2, true, ",", 9),
        Err(SelectError::LineOutOfRange { requested: 2, available: 1 })
    );
}

#[test]
fn select_empty_delimiter_is_refused() {
    let lines = vec![String::from("a,b")];
    assert_eq!(select(&lines, 1, true, "", 1), Err(SelectError::EmptyDelimiter));
}

#[test]
fn split_then_join_reconstructs_the_source() {
    let sources = [
        "",
        "one line",
        "alpha\nbeta\ngamma",
        "trailing\nnewline\n",
        "\n\n",
        "a,b\nc,d",
    ];
    for s in sources {
        let joined = join_lines(&parse(String::from(s)), "\n");
        assert_eq!(joined, s);
    }
}

#[test]
fn join_uses_the_given_delimiter() {
    let parts = vec![String::from("a"), String::from("b"), String::from("c")];
    assert_eq!(join_lines(&parts, "; "), "a; b; c");
}

#[test]
fn response_ok_carries_content() {
    let r = Response::ok(String::from("text"));
    assert!(r.is_ok());
    assert_eq!(r.unwrap(), "text");
}

#[test]
fn response_err_carries_message() {
    let r = Response::err(String::from("boom"));
    assert!(!r.is_ok());
    assert_eq!(r.unwrap(), "boom");
}

#[test]
fn parse_index_reads_decimal() {
    assert_eq!(parse_index("1"), Some(1));
    assert_eq!(parse_index("42"), Some(42));
    assert_eq!(parse_index("007"), Some(7));
    assert_eq!(parse_index("0"), Some(0));
}

#[test]
fn parse_index_rejects_non_numbers() {
    assert_eq!(parse_index(""), None);
    assert_eq!(parse_index("x"), None);
    assert_eq!(parse_index("1x"), None);
    assert_eq!(parse_index("-1"), None);
    assert_eq!(parse_index("+1"), None);
    assert_eq!(parse_index(" 1"), None);
}

#[test]
fn parse_index_rejects_overflow() {
    assert_eq!(parse_index("999999999999999999999999999999"), None);
    assert_eq!(parse_index(&format!("{}", usize::MAX)), Some(usize::MAX));
}
