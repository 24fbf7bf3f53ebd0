use codextract::extraction::{execute_extraction_sync, SourceFile};
use codextract::types::ExtractionConfig;

fn clean_config() -> ExtractionConfig {
    ExtractionConfig {
        remove_comments: true,
        compact_lines: true,
    }
}

#[test]
fn execute_extraction_outputs_only_source_lines() {
    let files = vec![SourceFile {
        path: "main.rs".to_string(),
        extension: "rs".to_string(),
        content: Ok("fn main() {}\n// trailing file comment\n".to_string()),
    }];
    let result = execute_extraction_sync(files, clean_config()).expect("extraction should succeed");

    assert_eq!(result.content, "fn main() {}");
    assert_eq!(result.line_count, 1);
    assert!(!result.content.contains("File:"));
}

#[test]
fn extraction_joins_files_in_order() {
    let files = vec![
        SourceFile {
            path: "a.py".to_string(),
            extension: "py".to_string(),
            content: Ok("# c\nx = 1\n".to_string()),
        },
        SourceFile {
            path: "b.js".to_string(),
            extension: "js".to_string(),
            content: Ok("let y = 2; // c\n".to_string()),
        },
    ];
    let result = execute_extraction_sync(files, clean_config()).unwrap();
    assert_eq!(result.content, "x = 1\nlet y = 2;");
    assert_eq!(result.line_count, 2);
}

#[test]
fn unreadable_files_fail_the_extraction() {
    let files = vec![
        SourceFile {
            path: "ok.rs".to_string(),
            extension: "rs".to_string(),
            content: Ok("fn f() {}\n".to_string()),
        },
        SourceFile {
            path: "a.rs".to_string(),
            extension: "rs".to_string(),
            content: Err("not found".to_string()),
        },
        SourceFile {
            path: "b.rs".to_string(),
            extension: "rs".to_string(),
            content: Err("denied".to_string()),
        },
    ];
    let err = execute_extraction_sync(files, clean_config()).unwrap_err();
    assert_eq!(err, "以下文件提取失败，未生成结果:\na.rs: not found\nb.rs: denied");
}

#[test]
fn long_extraction_is_limited_to_sixty_pages() {
    let raw: String = (1..=5000).map(|i| format!("v{};\n", i)).collect();
    let files = vec![SourceFile {
        path: "big.c".to_string(),
        extension: "c".to_string(),
        content: Ok(raw),
    }];
    let result = execute_extraction_sync(files, clean_config()).unwrap();
    assert_eq!(result.line_count, 3900);
    assert_eq!(result.page_count, 60);
    assert!(result.content.starts_with("v1;\n"));
    assert!(result.content.ends_with("\nv5000;"));
}
