use codextract::export::{
    build_code_paragraph, format_document_title, plan_export, CodeLineSpacing, CodeRun,
};

fn texts(runs: &[CodeRun]) -> Vec<String> {
    runs.iter()
        .filter_map(|r| match r {
            CodeRun::Text { text, .. } => Some(text.clone()),
            _ => None,
        })
        .collect()
}

#[test]
fn formats_source_document_title_from_metadata() {
    assert_eq!(
        format_document_title("测试系统", "V1.0"),
        "《测试系统》V1.0源代码"
    );
    assert_eq!(
        format_document_title("  测试系统  ", ""),
        "《测试系统》V1.0源代码"
    );
    assert_eq!(format_document_title("", "V2.0"), "源代码提取报告");
}

#[test]
fn code_paragraph_uses_exact_line_spacing_and_no_trailing_blank_break() {
    let lines = vec!["line1".to_string(), "line2".to_string()];
    let paragraph = build_code_paragraph(&lines, true);

    assert_eq!(
        paragraph.spacing,
        CodeLineSpacing {
            before: 0,
            after: 0,
            exact: true,
            line: 200,
        }
    );
    let mut text_runs = 0;
    for run in &paragraph.runs {
        if let CodeRun::Text {
            font,
            size_half_points,
            ..
        } = run
        {
            text_runs += 1;
            assert_eq!(font, "Times New Roman");
            assert_eq!(*size_half_points, 18);
        }
    }
    assert_eq!(text_runs, 2);
    let runs = &paragraph.runs;
    assert_eq!(runs.iter().filter(|r| matches!(r, CodeRun::LineBreak)).count(), 1);
    assert_eq!(runs.iter().filter(|r| matches!(r, CodeRun::PageBreak)).count(), 1);
    assert_eq!(texts(runs), vec!["line1".to_string(), "line2".to_string()]);
    assert!(matches!(runs[1], CodeRun::LineBreak));
    assert!(matches!(runs[runs.len() - 1], CodeRun::PageBreak));
}

#[test]
fn last_page_has_no_page_break() {
    let lines = vec!["only".to_string()];
    let paragraph = build_code_paragraph(&lines, false);
    assert_eq!(paragraph.runs.len(), 1);
    assert!(matches!(&paragraph.runs[0], CodeRun::Text { text, .. } if text == "only"));
}

#[test]
fn export_plan_cuts_pages_of_sixty_five_lines() {
    let content: Vec<String> = (1..=131).map(|i| format!("x{}", i)).collect();
    let plan = plan_export(&content.join("\n"), " 系统 ", " V3 ").unwrap();
    assert_eq!(plan.title, "《系统》V3源代码");
    assert_eq!(plan.pages.len(), 3);
    assert_eq!(texts(&plan.pages[0].runs).len(), 65);
    assert_eq!(texts(&plan.pages[1].runs)[0], "x66");
    assert_eq!(texts(&plan.pages[2].runs), vec!["x131".to_string()]);
    assert!(matches!(plan.pages[0].runs.last(), Some(CodeRun::PageBreak)));
    assert!(matches!(plan.pages[1].runs.last(), Some(CodeRun::PageBreak)));
    assert!(matches!(plan.pages[2].runs.last(), Some(CodeRun::Text { .. })));
    for page in &plan.pages {
        assert!(page.spacing.exact && page.spacing.line == 200);
    }
}

#[test]
fn export_of_blank_content_fails() {
    let err = plan_export(" \n\t\n", "a", "b").err().unwrap();
    assert_eq!(err, "没有可导出的源码内容");
}
