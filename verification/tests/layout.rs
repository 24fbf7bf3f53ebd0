use codextract::layout::{
    code_lines_per_page, copyright_side_lines, max_submission_lines, page_count_for_line_count,
    CODE_LINE_HEIGHT_TWIPS, PAGE_HEIGHT_TWIPS, PAGE_MARGIN_BOTTOM_TWIPS, PAGE_MARGIN_LEFT_TWIPS,
    PAGE_MARGIN_RIGHT_TWIPS, PAGE_MARGIN_TOP_TWIPS,
};

#[test]
fn computes_lines_per_page_from_layout_constants() {
    let usable_height = PAGE_HEIGHT_TWIPS as i32 - PAGE_MARGIN_TOP_TWIPS - PAGE_MARGIN_BOTTOM_TWIPS;

    assert_eq!(
        code_lines_per_page(),
        (usable_height / CODE_LINE_HEIGHT_TWIPS) as usize
    );
    assert!(code_lines_per_page() > 50);
}

#[test]
fn page_margin_matches_layout_constants() {
    assert_eq!(PAGE_MARGIN_TOP_TWIPS, 1985);
    assert_eq!(PAGE_MARGIN_RIGHT_TWIPS, 1701);
    assert_eq!(PAGE_MARGIN_BOTTOM_TWIPS, 1701);
    assert_eq!(PAGE_MARGIN_LEFT_TWIPS, 1701);
}

#[test]
fn layout_values() {
    assert_eq!(code_lines_per_page(), 65);
    assert_eq!(max_submission_lines(), 3900);
    assert_eq!(copyright_side_lines(), 1950);
    assert_eq!(max_submission_lines(), 2 * copyright_side_lines());
}

#[test]
fn page_count_rounds_up() {
    assert_eq!(page_count_for_line_count(0), 0);
    assert_eq!(page_count_for_line_count(1), 1);
    assert_eq!(page_count_for_line_count(65), 1);
    assert_eq!(page_count_for_line_count(66), 2);
    assert_eq!(page_count_for_line_count(130), 2);
    assert_eq!(page_count_for_line_count(3900), 60);
}
