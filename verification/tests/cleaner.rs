use codextract::cleaner::{clean_source_content, strip_comments_from_line, BlockComment, CommentSyntax};
use codextract::types::ExtractionConfig;

fn clean_config() -> ExtractionConfig {
    ExtractionConfig {
        remove_comments: true,
        compact_lines: true,
    }
}

#[test]
fn removes_c_like_comments_without_touching_strings() {
    let raw = [
        "// top comment\n",
        "const url = \"https://example.com/a//b\";\n",
        "const single = '/* not a comment */';\n",
        "const tpl = `// not a comment`;\n",
        "let x = 1; // trailing comment\n",
        "let y = 2; /* block comment */ let z = 3;\n",
        "/*\n",
        " * doc block\n",
        " */\n",
        "let life: &'a str = name; // rust lifetime style\n",
    ].concat();

    let result = clean_source_content(&raw, "ts", &clean_config());

    assert_eq!(
        result.content,
        [
            "const url = \"https://example.com/a//b\";\n",
            "const single = '/* not a comment */';\n",
            "const tpl = `// not a comment`;\n",
            "let x = 1;\n",
            "let y = 2;  let z = 3;\n",
            "let life: &'a str = name;"
        ].concat()
    );
    assert_eq!(result.line_count, 6);
}

#[test]
fn removes_python_and_html_comments_without_touching_string_markers() {
    let python = [
        "def build_url():\n",
        "    \"\"\"doc comment\n",
        "    still comment\n",
        "    \"\"\"\n",
        "    url = 'https://example.com/#anchor'\n",
        "    value = 1 # trailing comment\n",
        "# whole line comment\n",
        "    return url, value\n",
    ].concat();

    let py_result = clean_source_content(&python, "py", &clean_config());
    assert_eq!(
        py_result.content,
        [
            "def build_url():\n",
            "    url = 'https://example.com/#anchor'\n",
            "    value = 1\n",
            "    return url, value"
        ].concat()
    );

    let html = [
        "<div><!-- remove -->ok</div>\n",
        "<!-- full line -->\n",
        "<span>keep</span>\n",
    ].concat();
    let html_result = clean_source_content(&html, "html", &clean_config());
    assert_eq!(html_result.content, "<div>ok</div>\n<span>keep</span>");
}

#[test]
fn keeps_dependency_declarations_while_cleaning_comments() {
    let cases = [
        ("c", "#include <stdio.h>\nint main() { return 0; }\n"),
        ("h", "# include \"core.h\"\nvoid run(void);\n"),
        (
            "ts",
            "import React from \"react\";\nconst x = require(\"x\");\n",
        ),
        (
            "py",
            "from pathlib import Path\nimport os\nprint(os.name)\n",
        ),
        ("cs", "using System;\nclass Program {}\n"),
        (
            "php",
            "include \"bootstrap.php\";\nrequire_once \"lib.php\";\n",
        ),
    ];

    for (ext, raw) in cases {
        let result = clean_source_content(raw, ext, &clean_config());
        for line in raw.lines() {
            assert!(
                result.content.contains(line),
                "expected cleaned {ext} output to contain {line:?}, got {:?}",
                result.content
            );
        }
    }
}

#[test]
fn syntax_ignores_leading_dots_and_ascii_case() {
    let a = CommentSyntax::for_extension(".PY");
    let b = CommentSyntax::for_extension("py");
    assert_eq!(a, b);
    assert!(a.hash_line && a.python_triple && !a.slash_line);
    let sql = CommentSyntax::for_extension("sql");
    assert!(sql.sql_line && sql.slash_block && !sql.slash_line);
    let vue = CommentSyntax::for_extension("vue");
    assert!(vue.slash_line && vue.slash_block && vue.html_block && vue.backtick_string);
    let ps = CommentSyntax::for_extension("ps1");
    assert!(ps.powershell_block && ps.hash_line);
}

#[test]
fn unknown_language_keeps_every_line() {
    let syntax = CommentSyntax::for_extension("txt");
    let mut state = None;
    let line = "a // b /* c */ # d -- e";
    assert_eq!(strip_comments_from_line(line, syntax, &mut state), line);
    assert_eq!(state, None);
}

#[test]
fn open_block_comment_carries_over_lines() {
    let syntax = CommentSyntax::for_extension("c");
    let mut state = None;
    assert_eq!(strip_comments_from_line("int a; /* start", syntax, &mut state), "int a; ");
    assert_eq!(state, Some(BlockComment::SlashStar));
    assert_eq!(strip_comments_from_line("still inside", syntax, &mut state), "");
    assert_eq!(state, Some(BlockComment::SlashStar));
    assert_eq!(strip_comments_from_line("end */ int b;", syntax, &mut state), " int b;");
    assert_eq!(state, None);
}

#[test]
fn sql_and_powershell_comments_are_removed() {
    let sql = clean_source_content("SELECT 1; -- note\n/* x */SELECT 2;\n", "sql", &clean_config());
    assert_eq!(sql.content, "SELECT 1;\nSELECT 2;");
    let ps = clean_source_content("<# block\nstill #>\nWrite-Host 'hi' # c\n", "ps1", &clean_config());
    assert_eq!(ps.content, "Write-Host 'hi'");
}

#[test]
fn escaped_quotes_stay_inside_strings() {
    let r = clean_source_content("let s = \"a\\\" // b\"; // c\n", "rs", &clean_config());
    assert_eq!(r.content, "let s = \"a\\\" // b\";");
    let lone = clean_source_content("char c = '; // x\n", "c", &clean_config());
    assert_eq!(lone.content, "char c = ';");
}

#[test]
fn keeping_comments_keeps_text_but_drops_blank_lines() {
    let cfg = ExtractionConfig {
        remove_comments: false,
        compact_lines: false,
    };
    let r = clean_source_content("a // c\n\n  \nb\r\n", "rs", &cfg);
    assert_eq!(r.content, "a // c\nb");
    assert_eq!(r.line_count, 2);
    assert_eq!(r.page_count, 1);
}

#[test]
fn compaction_does_not_change_extraction() {
    let raw = "x = 1 # one\n\n# only comment\ny = 2\n";
    let a = clean_source_content(raw, "py", &clean_config());
    let b = clean_source_content(
        raw,
        "py",
        &ExtractionConfig {
            remove_comments: true,
            compact_lines: false,
        },
    );
    assert_eq!(a.content, b.content);
    assert_eq!(a.line_count, b.line_count);
    assert_eq!(a.page_count, b.page_count);
}

#[test]
fn non_ascii_text_is_kept() {
    let r = clean_source_content("let s = \"中文\"; // 注释\n", "rs", &clean_config());
    assert_eq!(r.content, "let s = \"中文\";");
}

#[test]
fn cleaning_never_lengthens_or_adds_lines() {
    let raw = "a /* x */ b\n// y\n\"s\" // z\n";
    let r = clean_source_content(raw, "js", &clean_config());
    assert!(r.line_count <= raw.lines().count());
    let syntax = CommentSyntax::for_extension("js");
    for line in raw.lines() {
        let mut state = None;
        let out = strip_comments_from_line(line, syntax, &mut state);
        assert!(out.chars().count() <= line.chars().count());
    }
}

fn is_subsequence(a: &str, b: &str) -> bool {
    let mut rest = b.chars();
    a.chars().all(|c| rest.any(|d| d == c))
}

#[test]
fn stripped_line_is_a_subsequence_of_the_line() {
    let syntax = CommentSyntax::for_extension("ts");
    let line = "let a = `x` /* c */ + 'y'; // tail";
    let mut state = None;
    let out = strip_comments_from_line(line, syntax, &mut state);
    assert_eq!(out, "let a = `x`  + 'y'; ");
    assert!(is_subsequence(&out, line));
}

#[test]
fn cleaned_content_has_the_counted_lines() {
    let raw = "a = 1   # x\n\n\"\"\"doc\"\"\"\nb = 2\t\n";
    let r = clean_source_content(raw, "py", &clean_config());
    let pieces: Vec<&str> = r.content.split('\n').collect();
    assert_eq!(pieces, vec!["a = 1", "b = 2"]);
    assert_eq!(r.line_count, pieces.len());
    assert!(r.line_count <= raw.lines().count());
    assert!(pieces.iter().all(|p| !p.ends_with(char::is_whitespace)));
    assert_eq!(r.lines_per_page, 65);
    assert_eq!(r.page_count, 1);
}
