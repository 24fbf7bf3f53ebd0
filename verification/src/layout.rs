//! Page geometry of the submitted source document (sizes in twips).
use vstd::prelude::*;

verus! {

pub const PAGE_WIDTH_TWIPS: u32 = 11906;

pub const PAGE_HEIGHT_TWIPS: u32 = 16838;

pub const PAGE_MARGIN_TOP_TWIPS: i32 = 1985;

pub const PAGE_MARGIN_RIGHT_TWIPS: i32 = 1701;

pub const PAGE_MARGIN_BOTTOM_TWIPS: i32 = 1701;

pub const PAGE_MARGIN_LEFT_TWIPS: i32 = 1701;

pub const PAGE_MARGIN_HEADER_TWIPS: i32 = 851;

pub const PAGE_MARGIN_FOOTER_TWIPS: i32 = 992;

pub const CODE_FONT_NAME: &'static str = "Times New Roman";

pub const CODE_FONT_SIZE_HALF_POINTS: usize = 18;

pub const CODE_LINE_HEIGHT_TWIPS: i32 = 200;

pub const COPYRIGHT_SIDE_PAGES: usize = 30;

pub const MAX_SUBMISSION_PAGES: usize = COPYRIGHT_SIDE_PAGES * 2;

/// Whole code lines that fit in the printable height of a page (at least one).
pub open spec fn lines_per_page() -> int {
    let usable = PAGE_HEIGHT_TWIPS - PAGE_MARGIN_TOP_TWIPS - PAGE_MARGIN_BOTTOM_TWIPS;
    let per = usable / (CODE_LINE_HEIGHT_TWIPS as int);
    if per >= 1 {
        per
    } else {
        1
    }
}

/// Pages needed for `n` lines: none for no lines, else `n / lines_per_page` rounded up.
pub open spec fn page_count(n: int) -> int {
    if n <= 0 {
        0
    } else {
        (n + lines_per_page() - 1) / lines_per_page()
    }
}

/// The most lines a submission holds.
pub open spec fn max_lines() -> int {
    lines_per_page() * MAX_SUBMISSION_PAGES
}

/// The lines taken from each end of a long submission.
pub open spec fn side_lines() -> int {
    lines_per_page() * COPYRIGHT_SIDE_PAGES
}

/// The page geometry gives 65 lines a page, so 3900 lines a submission and
/// 1950 from each end.
pub proof fn lemma_layout_values()
    ensures
        lines_per_page() == 65,
        max_lines() == 3900,
        side_lines() == 1950,
        max_lines() == 2 * side_lines(),
{
}

pub fn code_lines_per_page() -> (n: usize)
    ensures
        n == lines_per_page(),
{
    let usable_height = PAGE_HEIGHT_TWIPS as i32 - PAGE_MARGIN_TOP_TWIPS - PAGE_MARGIN_BOTTOM_TWIPS;
    let per_page = usable_height / CODE_LINE_HEIGHT_TWIPS;
    if per_page >= 1 {
        per_page as usize
    } else {
        1
    }
}

pub fn page_count_for_line_count(line_count: usize) -> (pages: usize)
    ensures
        pages == page_count(line_count as int),
{
    let lines_per_page = code_lines_per_page();
    proof {
        lemma_layout_values();
    }
    if line_count == 0 {
        0
    } else {
        let whole = line_count / lines_per_page;
        if line_count % lines_per_page == 0 {
            whole
        } else {
            whole + 1
        }
    }
}

pub fn max_submission_lines() -> (n: usize)
    ensures
        n == max_lines(),
{
    proof {
        lemma_layout_values();
    }
    code_lines_per_page() * MAX_SUBMISSION_PAGES
}

pub fn copyright_side_lines() -> (n: usize)
    ensures
        n == side_lines(),
{
    proof {
        lemma_layout_values();
    }
    code_lines_per_page() * COPYRIGHT_SIDE_PAGES
}

/// The page count is the least number of pages that holds all the lines.
pub proof fn lemma_page_count_fits(n: int)
    requires
        n >= 0,
    ensures
        page_count(n) * lines_per_page() >= n,
        n > 0 ==> (page_count(n) - 1) * lines_per_page() < n,
        n > 0 ==> page_count(n) >= 1,
{
    lemma_layout_values();
}

} // verus!
