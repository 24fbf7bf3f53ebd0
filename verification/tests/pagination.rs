use codextract::layout::{code_lines_per_page, copyright_side_lines, max_submission_lines};
use codextract::pagination::{
    extracted_from_lines, non_empty_lines, select_submission_lines, submission_lines_from_content,
};

#[test]
fn select_submission_lines_keeps_all_until_sixty_pages() {
    let max_lines = max_submission_lines();
    let lines_before_limit: Vec<String> = (1..max_lines).map(|i| format!("line{}", i)).collect();
    assert_eq!(
        select_submission_lines(lines_before_limit).len(),
        max_lines - 1
    );

    let lines_at_limit: Vec<String> = (1..=max_lines).map(|i| format!("line{}", i)).collect();
    let selected_at_limit = select_submission_lines(lines_at_limit);
    assert_eq!(selected_at_limit.len(), max_lines);
    assert_eq!(
        selected_at_limit[max_lines - 1],
        format!("line{}", max_lines)
    );
}

#[test]
fn select_submission_lines_keeps_first_and_last_thirty_pages() {
    let max_lines = max_submission_lines();
    let side_lines = copyright_side_lines();
    let lines: Vec<String> = (1..=max_lines + 1).map(|i| format!("line{}", i)).collect();
    let selected = select_submission_lines(lines);

    assert_eq!(selected.len(), max_lines);
    assert_eq!(selected[0], "line1");
    assert_eq!(selected[side_lines - 1], format!("line{}", side_lines));
    assert_eq!(selected[side_lines], format!("line{}", side_lines + 2));
    assert_eq!(selected[max_lines - 1], format!("line{}", max_lines + 1));
}

#[test]
fn removes_blank_lines_before_counting_and_selecting() {
    let result = extracted_from_lines(vec![
        "alpha".to_string(),
        "".to_string(),
        "   ".to_string(),
        "beta".to_string(),
    ]);

    assert_eq!(result.content, "alpha\nbeta");
    assert_eq!(result.line_count, 2);
    assert_eq!(result.lines_per_page, code_lines_per_page());
    assert_eq!(result.page_count, 1);
}

#[test]
fn unicode_whitespace_counts_as_blank() {
    let kept = non_empty_lines(vec![
        "\u{3000}\t".to_string(),
        "\u{a0}".to_string(),
        "x".to_string(),
    ]);
    assert_eq!(kept, vec!["x".to_string()]);
}

#[test]
fn selection_is_idempotent() {
    let lines: Vec<String> = (1..=5000).map(|i| format!("l{}", i)).collect();
    let once = select_submission_lines(lines);
    let twice = select_submission_lines(once.clone());
    assert_eq!(once, twice);
}

#[test]
fn content_round_trips_through_export_selection() {
    let lines: Vec<String> = (1..=4000).map(|i| format!("row {}", i)).collect();
    let extracted = extracted_from_lines(lines.clone());
    assert_eq!(submission_lines_from_content(&extracted.content), select_submission_lines(lines));
    assert_eq!(extracted.page_count, 62);
}

#[test]
fn content_lines_follow_str_lines() {
    let got = submission_lines_from_content("a\r\nb\n\nc\r");
    assert_eq!(got, vec!["a".to_string(), "b".to_string(), "c\r".to_string()]);
}
