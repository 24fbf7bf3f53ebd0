//! What the exported document holds: its title, and one paragraph a page of
//! submitted lines, lines separated by line breaks and pages by page breaks.
use vstd::prelude::*;

use crate::layout::{
    code_lines_per_page, lemma_layout_values, lines_per_page, page_count, CODE_FONT_NAME,
    CODE_FONT_SIZE_HALF_POINTS, CODE_LINE_HEIGHT_TWIPS,
};
use crate::pagination::{spec_select, submission_lines_from_content};
use crate::text::{append_str, copy_string, owned, spec_lines, trim, trim_string};

verus! {

/// One run of a code paragraph: a line of code in its font and size, or a
/// break.
pub enum CodeRun {
    Text { text: String, font: String, size_half_points: usize },
    LineBreak,
    PageBreak,
}

/// The spacing of a code paragraph, in twips: space before and after it, and
/// the line height, exact or at least.
#[derive(Clone, Copy, PartialEq, Eq, Structural, Debug)]
pub struct CodeLineSpacing {
    pub before: u32,
    pub after: u32,
    pub exact: bool,
    pub line: i32,
}

/// Code lines are set without space around the paragraph, at exactly the
/// code line height.
pub open spec fn code_spacing() -> CodeLineSpacing {
    CodeLineSpacing { before: 0, after: 0, exact: true, line: CODE_LINE_HEIGHT_TWIPS }
}

pub fn code_line_spacing() -> (s: CodeLineSpacing)
    ensures
        s == code_spacing(),
{
    CodeLineSpacing { before: 0, after: 0, exact: true, line: CODE_LINE_HEIGHT_TWIPS }
}

/// A run is in the code font and size, if it is text.
pub open spec fn run_styled(r: CodeRun) -> bool {
    r matches CodeRun::Text { font, size_half_points, .. } ==> font@ == CODE_FONT_NAME@
        && size_half_points == CODE_FONT_SIZE_HALF_POINTS
}

/// The paragraph has the code spacing and every text run the code font and size.
pub open spec fn paragraph_styled(p: CodeParagraph) -> bool {
    &&& p.spacing == code_spacing()
    &&& forall|k: int| 0 <= k < p.runs.len() ==> run_styled(#[trigger] p.runs@[k])
}

/// A run as the contracts speak of it.
pub enum RunView {
    Text(Seq<char>),
    LineBreak,
    PageBreak,
}

pub open spec fn run_view(r: CodeRun) -> RunView {
    match r {
        CodeRun::Text { text, .. } => RunView::Text(text@),
        CodeRun::LineBreak => RunView::LineBreak,
        CodeRun::PageBreak => RunView::PageBreak,
    }
}

/// A paragraph of code: the runs of one page, and its line spacing.
pub struct CodeParagraph {
    pub spacing: CodeLineSpacing,
    pub runs: Vec<CodeRun>,
}

impl CodeParagraph {
    pub open spec fn runs_view(self) -> Seq<RunView> {
        self.runs@.map_values(|r: CodeRun| run_view(r))
    }
}

/// The lines of a page, each its own text run, a line break between two lines
/// (none after the last).
pub open spec fn line_runs(lines: Seq<Seq<char>>) -> Seq<RunView>
    decreases lines.len(),
{
    if lines.len() == 0 {
        seq![]
    } else if lines.len() == 1 {
        seq![RunView::Text(lines[0])]
    } else {
        line_runs(lines.drop_last()) + seq![RunView::LineBreak, RunView::Text(lines.last())]
    }
}

/// The runs of a page: its lines, then a page break if one is asked for.
pub open spec fn page_runs(lines: Seq<Seq<char>>, page_break: bool) -> Seq<RunView> {
    if page_break {
        line_runs(lines) + seq![RunView::PageBreak]
    } else {
        line_runs(lines)
    }
}

/// The title of the document: `《name》version源代码`, with the name and the
/// version trimmed and `V1.0` for a missing version; a fixed title when there
/// is no name.
pub open spec fn document_title(name: Seq<char>, version: Seq<char>) -> Seq<char> {
    let n = trim(name);
    let v = trim(version);
    if n.len() == 0 {
        "源代码提取报告"@
    } else {
        "《"@ + n + "》"@ + (if v.len() == 0 {
            "V1.0"@
        } else {
            v
        }) + "源代码"@
    }
}

pub fn format_document_title(software_name: &str, software_version: &str) -> (title: String)
    ensures
        title@ == document_title(software_name@, software_version@),
{
    let name = trim_string(software_name);
    if name.as_str().unicode_len() == 0 {
        let mut t = String::new();
        append_str(&mut t, "源代码提取报告");
        return t;
    }
    let version = trim_string(software_version);
    let mut t = String::new();
    append_str(&mut t, "《");
    append_str(&mut t, name.as_str());
    append_str(&mut t, "》");
    if version.as_str().unicode_len() == 0 {
        append_str(&mut t, "V1.0");
    } else {
        append_str(&mut t, version.as_str());
    }
    append_str(&mut t, "源代码");
    t
}

/// The views of a list of lines.
pub open spec fn lines_view(lines: Seq<String>) -> Seq<Seq<char>> {
    lines.map_values(|s: String| s@)
}

/// The paragraph of one page of code: the lines with line breaks between
/// them, and a page break after them when another page follows; set at the
/// code spacing, each line in the code font and size.
pub fn build_code_paragraph(page_lines: &[String], add_page_break: bool) -> (p: CodeParagraph)
    ensures
        p.runs_view() == page_runs(lines_view(page_lines@), add_page_break),
        p.spacing == code_spacing(),
        forall|k: int|
            0 <= k < p.runs.len() ==> (#[trigger] p.runs@[k] matches CodeRun::Text {
                font,
                size_half_points,
                ..
            } ==> font@ == CODE_FONT_NAME@ && size_half_points == CODE_FONT_SIZE_HALF_POINTS),
{
    let ghost lv = lines_view(page_lines@);
    let mut runs: Vec<CodeRun> = Vec::new();
    let mut i: usize = 0;
    while i < page_lines.len()
        invariant
            lv == lines_view(page_lines@),
            i <= page_lines.len(),
            runs@.map_values(|r: CodeRun| run_view(r)) == line_runs(lv.take(i as int)),
            forall|k: int| 0 <= k < runs.len() ==> run_styled(#[trigger] runs@[k]),
        decreases page_lines.len() - i,
    {
        let ghost before = runs@.map_values(|r: CodeRun| run_view(r));
        proof {
            assert(lv.take(i + 1).drop_last() == lv.take(i as int));
            assert(lv.take(i + 1).last() == page_lines@[i as int]@);
        }
        if i > 0 {
            runs.push(CodeRun::LineBreak);
        } else {
            proof {
                assert(lv.take(1) == seq![lv[0]]);
            }
        }
        runs.push(
            CodeRun::Text {
                text: copy_string(&page_lines[i]),
                font: owned(CODE_FONT_NAME),
                size_half_points: CODE_FONT_SIZE_HALF_POINTS,
            },
        );
        proof {
            if i > 0 {
                assert(runs@.map_values(|r: CodeRun| run_view(r)) == before + seq![
                    RunView::LineBreak,
                    RunView::Text(page_lines@[i as int]@),
                ]);
            } else {
                assert(runs@.map_values(|r: CodeRun| run_view(r)) == seq![
                    RunView::Text(page_lines@[0]@),
                ]);
            }
        }
        i = i + 1;
    }
    proof {
        assert(lv.take(page_lines.len() as int) == lv);
    }
    if add_page_break {
        let ghost before = runs@.map_values(|r: CodeRun| run_view(r));
        runs.push(CodeRun::PageBreak);
        proof {
            assert(runs@.map_values(|r: CodeRun| run_view(r)) == before + seq![RunView::PageBreak]);
        }
    }
    let p = CodeParagraph { spacing: code_line_spacing(), runs };
    assert(forall|k: int| 0 <= k < p.runs.len() ==> run_styled(#[trigger] p.runs@[k]));
    p
}

/// The document to export: its title and its pages of code.
pub struct ExportPlan {
    pub title: String,
    pub pages: Vec<CodeParagraph>,
}

/// The lines of page `k` (counted from 0) of `ls`.
pub open spec fn page_lines(ls: Seq<Seq<char>>, k: int) -> Seq<Seq<char>> {
    let start = k * lines_per_page();
    let end = if (k + 1) * lines_per_page() <= ls.len() {
        (k + 1) * lines_per_page()
    } else {
        ls.len() as int
    };
    ls.subrange(start, end)
}

/// `plan` lays out the lines `ls` under the given title: as many pages as
/// they fill, each page's paragraph holding its lines, every page but the
/// last ending in a page break, every paragraph in the code style.
pub open spec fn spec_plan(plan: ExportPlan, ls: Seq<Seq<char>>, title: Seq<char>) -> bool {
    &&& plan.title@ == title
    &&& plan.pages.len() == page_count(ls.len() as int)
    &&& forall|k: int|
        0 <= k < plan.pages.len() ==> (#[trigger] plan.pages@[k]).runs_view() == page_runs(
            page_lines(ls, k),
            k + 1 < plan.pages.len(),
        )
    &&& forall|k: int| 0 <= k < plan.pages.len() ==> paragraph_styled(#[trigger] plan.pages@[k])
}

/// The message given when there is nothing to export.
pub open spec fn nothing_to_export() -> Seq<char> {
    "没有可导出的源码内容"@
}

/// Plans the document for the extracted text `content`: the submitted lines
/// of the text, cut into pages. Fails when no line is left to export.
pub fn plan_export(content: &str, software_name: &str, software_version: &str) -> (r: Result<
    ExportPlan,
    String,
>)
    ensures
        r is Err == (spec_select(spec_lines(content@)).len() == 0),
        r matches Err(m) ==> m@ == nothing_to_export(),
        r matches Ok(plan) ==> spec_plan(
            plan,
            spec_select(spec_lines(content@)),
            document_title(software_name@, software_version@),
        ),
{
    let lines = submission_lines_from_content(content);
    if lines.len() == 0 {
        let mut m = String::new();
        append_str(&mut m, "没有可导出的源码内容");
        return Err(m);
    }
    let ghost ls = lines.deep_view();
    let title = format_document_title(software_name, software_version);
    let per_page = code_lines_per_page();
    proof {
        lemma_layout_values();
    }
    let n = lines.len();
    let pages_needed = if n % per_page == 0 {
        n / per_page
    } else {
        n / per_page + 1
    };
    let mut pages: Vec<CodeParagraph> = Vec::new();
    let mut k: usize = 0;
    while k < pages_needed
        invariant
            ls == lines.deep_view(),
            n == lines.len(),
            n > 0,
            per_page == 65,
            pages_needed == page_count(n as int),
            k <= pages_needed,
            pages.len() == k,
            forall|j: int|
                0 <= j < k ==> (#[trigger] pages@[j]).runs_view() == page_runs(
                    page_lines(ls, j),
                    j + 1 < pages_needed,
                ),
            forall|j: int| 0 <= j < k ==> paragraph_styled(#[trigger] pages@[j]),
        decreases pages_needed - k,
    {
        assert(pages_needed == (n + 64) / 65);
        assert(k * 65 < n) by (nonlinear_arith)
            requires
                k < (n + 64) / 65,
        ;
        let start = k * per_page;
        let end = if n - start >= per_page {
            start + per_page
        } else {
            n
        };
        let mut chunk: Vec<String> = Vec::new();
        let mut t = start;
        while t < end
            invariant
                ls == lines.deep_view(),
                n == lines.len(),
                start <= t <= end <= n,
                lines_view(chunk@) == ls.subrange(start as int, t as int),
            decreases end - t,
        {
            let ghost before = lines_view(chunk@);
            chunk.push(copy_string(&lines[t]));
            proof {
                assert(lines_view(chunk@) == before.push(ls[t as int]));
                assert(ls.subrange(start as int, t + 1) == ls.subrange(start as int, t as int).push(
                    ls[t as int],
                ));
            }
            t = t + 1;
        }
        proof {
            assert(lines_per_page() == 65);
            assert(start == k * lines_per_page());
            assert(lines_view(chunk@) == page_lines(ls, k as int));
        }
        let paragraph = build_code_paragraph(chunk.as_slice(), k + 1 < pages_needed);
        let ghost prev = pages@;
        pages.push(paragraph);
        proof {
            assert forall|j: int|
                0 <= j < k + 1 implies (#[trigger] pages@[j]).runs_view() == page_runs(
                page_lines(ls, j),
                j + 1 < pages_needed,
            ) by {
                if j < k {
                    assert(pages@[j] == prev[j]);
                }
            }
            assert forall|j: int| 0 <= j < k + 1 implies paragraph_styled(#[trigger] pages@[j]) by {
                if j < k {
                    assert(pages@[j] == prev[j]);
                }
            }
        }
        k = k + 1;
    }
    Ok(ExportPlan { title, pages })
}

/// Line `t` of the submission is line `t % lines_per_page()` of page
/// `t / lines_per_page()`, and that page is one of the pages planned.
pub proof fn law_pages_cover_lines(ls: Seq<Seq<char>>, t: int)
    requires
        0 <= t < ls.len(),
    ensures
        0 <= t / lines_per_page() < page_count(ls.len() as int),
        t % lines_per_page() < page_lines(ls, t / lines_per_page()).len(),
        page_lines(ls, t / lines_per_page())[t % lines_per_page()] == ls[t],
{
    lemma_layout_values();
    let k = t / 65;
    let r = t % 65;
    assert(t == k * 65 + r);
    assert(0 <= r < 65);
    assert(k < (ls.len() + 64) / 65) by (nonlinear_arith)
        requires
            t == k * 65 + r,
            0 <= r < 65,
            t < ls.len(),
            k >= 0,
    ;
}

/// Every page but the last is full.
pub proof fn law_pages_are_full_but_last(ls: Seq<Seq<char>>, k: int)
    requires
        0 <= k,
        k + 1 < page_count(ls.len() as int),
    ensures
        page_lines(ls, k).len() == lines_per_page(),
{
    lemma_layout_values();
    assert((k + 1) * 65 <= ls.len()) by (nonlinear_arith)
        requires
            k + 1 < (ls.len() + 64) / 65,
            k >= 0,
    ;
}

} // verus!
