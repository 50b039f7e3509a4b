use tiber::task_text::{
    closes_trailers, is_open_status, nonempty_option, parse_nonempty_text, parse_one_based_usize,
    parse_status, parse_subtask_ref, parse_task_section_body, yaml_single_quoted, TaskInputError,
};
use tiber::text::{decimal_string, lines};

#[test]
fn closes_trailers_lists_each_named_task() {
    let log = "feat: x\n\nCloses: 20260101-abcd\nCloses:   \n  Closes: task-b  \r\nNot Closes: x\nCloses:last";
    assert_eq!(closes_trailers(log), vec!["20260101-abcd".to_string(), "task-b".into(), "last".into()]);
    assert!(closes_trailers("").is_empty());
}

#[test]
fn lines_follow_str_lines() {
    for text in ["", "a", "a\n", "a\r\nb", "a\n\nb\n", "x\r", "\n", "a\rb\n"] {
        let expected: Vec<Vec<char>> = text.lines().map(|l| l.chars().collect()).collect();
        assert_eq!(lines(text), expected, "text {text:?}");
    }
}

#[test]
fn decimal_numbers_are_written_without_leading_zeros() {
    assert_eq!(decimal_string(0), "0");
    assert_eq!(decimal_string(7), "7");
    assert_eq!(decimal_string(1030), "1030");
    assert_eq!(decimal_string(u64::MAX), u64::MAX.to_string());
}

#[test]
fn subtask_references_name_a_numbered_subtask() {
    assert_eq!(parse_subtask_ref("s3"), Ok("s3".to_string()));
    assert_eq!(parse_subtask_ref("4"), Ok("s4".to_string()));
    assert_eq!(parse_subtask_ref("+5"), Ok("s5".to_string()));
    assert_eq!(parse_subtask_ref("0"), Err(TaskInputError::SubtaskRefZero));
    assert_eq!(parse_subtask_ref("x"), Err(TaskInputError::InvalidSubtaskRef));
    assert_eq!(parse_subtask_ref("s"), Err(TaskInputError::InvalidSubtaskRef));
    assert_eq!(parse_subtask_ref("s1a"), Err(TaskInputError::InvalidSubtaskRef));
}

#[test]
fn one_based_positions_refuse_zero() {
    assert_eq!(parse_one_based_usize("2"), Ok(2));
    assert_eq!(parse_one_based_usize("0"), Err(TaskInputError::IndexZero));
    assert_eq!(parse_one_based_usize("-1"), Err(TaskInputError::InvalidIndex));
    assert_eq!(parse_one_based_usize(""), Err(TaskInputError::InvalidIndex));
}

#[test]
fn one_line_text_is_trimmed_and_free_of_control_characters() {
    assert_eq!(parse_nonempty_text("  hi "), Ok("hi".to_string()));
    assert_eq!(parse_nonempty_text("   "), Err(TaskInputError::TextEmpty));
    assert_eq!(parse_nonempty_text("a\tb"), Err(TaskInputError::TextInvalid));
}

#[test]
fn section_bodies_keep_lines_but_not_headings() {
    assert_eq!(parse_task_section_body(" line1\n\tline2 "), Ok("line1\n\tline2".to_string()));
    assert_eq!(
        parse_task_section_body("x\n## Summary\ny"),
        Err(TaskInputError::SectionReservedHeading)
    );
    assert_eq!(parse_task_section_body("a\u{7}"), Err(TaskInputError::SectionInvalid));
    assert_eq!(parse_task_section_body("\n \n"), Err(TaskInputError::SectionEmpty));
    assert_eq!(parse_task_section_body("## Summary of it"), Ok("## Summary of it".to_string()));
}

#[test]
fn statuses_are_the_four_board_columns() {
    assert_eq!(parse_status("done"), Ok("done".to_string()));
    assert_eq!(parse_status("todo"), Err(TaskInputError::InvalidStatus));
    assert!(is_open_status("backlog"));
    assert!(is_open_status("in-progress"));
    assert!(!is_open_status("abandoned"));
    assert_eq!(nonempty_option("  x "), Some("x".to_string()));
    assert_eq!(nonempty_option(" \t "), None);
}

#[test]
fn yaml_single_quoting_doubles_quotes() {
    assert_eq!(yaml_single_quoted("it's"), "'it''s'");
    assert_eq!(yaml_single_quoted(""), "''");
    assert_eq!(yaml_single_quoted("plain"), "'plain'");
}
