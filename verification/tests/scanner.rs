use codextract::scanner::{
    extension_whitelist, gitignore_rules_from_content, select_scan_candidates, summarize_scan,
    CountedEntry, ScanCandidate, ScanEntry,
};

fn with_lines(entries: Vec<ScanEntry>, lines: &[usize]) -> Vec<CountedEntry> {
    entries
        .into_iter()
        .zip(lines.iter())
        .map(|(entry, &lines)| CountedEntry { entry, lines })
        .collect()
}

fn candidate(abs: &str, rel: &str, ext: Option<&str>) -> ScanCandidate {
    ScanCandidate {
        absolute_path: abs.to_string(),
        relative_path: rel.to_string(),
        extension: ext.map(|e| e.to_string()),
    }
}

#[test]
fn gitignore_rules_are_parsed_and_a_source_file_is_chosen() {
    let rules = gitignore_rules_from_content("node_modules/\ndist/\n*.log\n# ignored comment\n\n");
    assert_eq!(
        rules,
        vec![
            "node_modules/".to_string(),
            "dist/".to_string(),
            "*.log".to_string()
        ]
    );
    let extensions = vec!["rs".to_string(), "js".to_string(), "log".to_string()];
    let entries = select_scan_candidates(
        vec![candidate("/p/src/main.rs", "src/main.rs", Some("rs"))],
        &[],
        &extensions,
    );
    let result = summarize_scan(with_lines(entries, &[1]), rules);
    assert_eq!(result.files.len(), 1);
    assert_eq!(result.files[0].relative_path, "src/main.rs");
    assert_eq!(result.gitignore_rules.len(), 3);
}

#[test]
fn whitelist_defaults_and_normalizes() {
    let defaults = extension_whitelist(&[]);
    assert_eq!(defaults.len(), 35);
    assert!(defaults.contains(&"scss".to_string()));
    let given = extension_whitelist(&[".RS".to_string(), "Py".to_string()]);
    assert_eq!(given, vec!["rs".to_string(), "py".to_string()]);
}

#[test]
fn candidates_are_filtered_by_extension_and_patterns() {
    let cands = vec![
        candidate("C:\\p\\src\\a.RS", "src\\a.RS", Some("RS")),
        candidate("/p/README", "README", None),
        candidate("/p/notes.txt", "notes.txt", Some("txt")),
        candidate("/p/gen/b.rs", "gen/b.rs", Some("rs")),
        candidate("/p/c.rs", "c.rs", Some("rs")),
    ];
    let excludes = vec!["^gen/".to_string(), "([".to_string()];
    let entries = select_scan_candidates(cands, &excludes, &[]);
    let rel: Vec<&str> = entries.iter().map(|e| e.relative_path.as_str()).collect();
    assert_eq!(rel, vec!["src/a.RS", "c.rs"]);
    assert_eq!(entries[0].extension, "rs");
}

#[test]
fn summary_numbers_files_and_counts_languages() {
    let cands = vec![
        candidate("/p/a.rs", "a.rs", Some("rs")),
        candidate("/p/b.py", "b.py", Some("py")),
        candidate("/p/c.rs", "c.rs", Some("rs")),
    ];
    let entries = select_scan_candidates(cands, &[], &[]);
    let result = summarize_scan(with_lines(entries, &[3, 4, 5]), vec![]);
    assert_eq!(result.total_files, 3);
    assert_eq!(result.total_original_lines, 12);
    let ids: Vec<usize> = result.files.iter().map(|f| f.id).collect();
    assert_eq!(ids, vec![0, 1, 2]);
    assert_eq!(result.language_counts.len(), 2);
    assert_eq!(result.language_counts[0].extension, "rs");
    assert_eq!(result.language_counts[0].count, 2);
    assert_eq!(result.language_counts[1].extension, "py");
    assert_eq!(result.language_counts[1].count, 1);
    let counted: usize = result.language_counts.iter().map(|c| c.count).sum();
    assert_eq!(counted, result.total_files);
}

#[test]
fn gitignore_rules_are_trimmed() {
    let rules = gitignore_rules_from_content("  *.log  \r\n\t# note\n\n target/\n#x\n");
    assert_eq!(rules, vec!["*.log".to_string(), "target/".to_string()]);
}
