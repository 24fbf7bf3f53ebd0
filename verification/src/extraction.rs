//! Extraction over a list of source files: every file is cleaned, their lines
//! are put one after the other, and the submission is chosen from them. A
//! file that could not be read makes the whole extraction fail.
use vstd::prelude::*;

use crate::cleaner::{clean_line, clean_lines, clean_source_content, normalize_ext, spec_clean, syntax_of, BlockComment, CommentSyntax};
use crate::layout::{lemma_layout_values, max_lines, page_count, MAX_SUBMISSION_PAGES};
use crate::pagination::{
    extracted_from_lines, is_line_list, law_selection_size, lemma_non_blank_identity,
    lemma_non_blank_plain, non_blank, select_submission_lines, spec_extracted, spec_select,
};
use crate::text::{
    append_str, copy_string, is_blank, join_lines, join_with_newlines, lemma_split_join, spec_lines,
    split_lines,
};
use crate::types::{ExtractedCode, ExtractionConfig};

verus! {

/// A source file as it was read: its path, its extension, and its text or the
/// reason it could not be read.
pub struct SourceFile {
    pub path: String,
    pub extension: String,
    pub content: Result<String, String>,
}

/// The lines a readable file contributes: the lines of its extracted text.
pub open spec fn file_lines(f: SourceFile, config: ExtractionConfig) -> Seq<Seq<char>> {
    match f.content {
        Ok(raw) => spec_lines(join_lines(non_blank(spec_clean(raw@, f.extension@, config)))),
        Err(_) => seq![],
    }
}

/// The lines of all readable files, in the order of the files.
pub open spec fn collected_lines(files: Seq<SourceFile>, config: ExtractionConfig) -> Seq<
    Seq<char>,
>
    decreases files.len(),
{
    if files.len() == 0 {
        seq![]
    } else {
        file_lines(files[0], config) + collected_lines(files.drop_first(), config)
    }
}

/// One report line per file that could not be read: `path: reason`.
pub open spec fn error_entries(files: Seq<SourceFile>) -> Seq<Seq<char>>
    decreases files.len(),
{
    if files.len() == 0 {
        seq![]
    } else {
        let rest = error_entries(files.drop_first());
        match files[0].content {
            Ok(_) => rest,
            Err(e) => seq![files[0].path@ + ": "@ + e@] + rest,
        }
    }
}

/// Some file could not be read.
pub open spec fn some_unreadable(files: Seq<SourceFile>) -> bool {
    exists|i: int| 0 <= i < files.len() && files[i].content is Err
}

/// The heading of the failure report.
pub open spec fn failure_heading() -> Seq<char> {
    "以下文件提取失败，未生成结果:\n"@
}

/// There is a report line exactly when some file could not be read.
pub proof fn lemma_error_entries_empty(files: Seq<SourceFile>)
    ensures
        (error_entries(files).len() == 0) == !some_unreadable(files),
    decreases files.len(),
{
    if files.len() > 0 {
        lemma_error_entries_empty(files.drop_first());
        if files[0].content is Err {
            assert(some_unreadable(files));
        } else {
            if some_unreadable(files) {
                let i = choose|i: int| 0 <= i < files.len() && files[i].content is Err;
                assert(files.drop_first()[i - 1] == files[i]);
            }
            if some_unreadable(files.drop_first()) {
                let i = choose|i: int|
                    0 <= i < files.drop_first().len() && files.drop_first()[i].content is Err;
                assert(files[i + 1] == files.drop_first()[i]);
            }
        }
    }
}

/// Cleans every file and lays out the submission made of all their lines;
/// fails, naming each file that could not be read, when any could not.
pub fn execute_extraction_sync(files: Vec<SourceFile>, config: ExtractionConfig) -> (r: Result<
    ExtractedCode,
    String,
>)
    ensures
        r is Err == some_unreadable(files@),
        r matches Err(msg) ==> msg@ == failure_heading() + join_lines(error_entries(files@)),
        r matches Ok(x) ==> spec_extracted(x, spec_select(collected_lines(files@, config))),
{
    let mut all_lines: Vec<String> = Vec::new();
    let mut errors: Vec<String> = Vec::new();
    let mut i: usize = 0;
    proof {
        assert(files@.skip(0) == files@);
    }
    while i < files.len()
        invariant
            i <= files.len(),
            collected_lines(files@, config) == all_lines.deep_view() + collected_lines(
                files@.skip(i as int),
                config,
            ),
            error_entries(files@) == errors.deep_view() + error_entries(files@.skip(i as int)),
        decreases files.len() - i,
    {
        proof {
            assert(files@.skip(i as int).drop_first() == files@.skip(i + 1));
            assert(files@.skip(i as int)[0] == files@[i as int]);
        }
        match &files[i].content {
            Ok(raw) => {
                let extracted = clean_source_content(
                    raw.as_str(),
                    files[i].extension.as_str(),
                    &config,
                );
                let mut ls = split_lines(extracted.content.as_str());
                let ghost before = all_lines.deep_view();
                let ghost added = ls.deep_view();
                all_lines.append(&mut ls);
                proof {
                    assert(all_lines.deep_view() == before + added);
                    assert(added == file_lines(files@[i as int], config));
                    assert(before + (added + collected_lines(files@.skip(i + 1), config)) == (
                    before + added) + collected_lines(files@.skip(i + 1), config));
                }
            },
            Err(e) => {
                let mut msg = copy_string(&files[i].path);
                append_str(&mut msg, ": ");
                append_str(&mut msg, e.as_str());
                let ghost before = errors.deep_view();
                errors.push(msg);
                proof {
                    assert(errors.deep_view() == before.push(msg@));
                    assert(before + (seq![msg@] + error_entries(files@.skip(i + 1)))
                        == errors.deep_view() + error_entries(files@.skip(i + 1)));
                }
            },
        }
        i = i + 1;
    }
    proof {
        assert(files@.skip(i as int) == Seq::<SourceFile>::empty());
        assert(all_lines.deep_view() + Seq::<Seq<char>>::empty() == all_lines.deep_view());
        assert(errors.deep_view() + Seq::<Seq<char>>::empty() == errors.deep_view());
        lemma_error_entries_empty(files@);
    }
    if errors.len() > 0 {
        let mut msg = String::new();
        append_str(&mut msg, "以下文件提取失败，未生成结果:\n");
        let joined = join_with_newlines(&errors);
        append_str(&mut msg, joined.as_str());
        return Err(msg);
    }
    Ok(extracted_from_lines(select_submission_lines(all_lines)))
}

/// A successful extraction never holds more than the maximum number of
/// lines, so it never fills more than `MAX_SUBMISSION_PAGES` pages.
pub proof fn law_extraction_within_limit(files: Seq<SourceFile>, config: ExtractionConfig)
    ensures
        non_blank(spec_select(collected_lines(files, config))).len() <= max_lines(),
        page_count(non_blank(spec_select(collected_lines(files, config))).len() as int)
            <= MAX_SUBMISSION_PAGES,
{
    let sel = spec_select(collected_lines(files, config));
    law_selection_size(collected_lines(files, config));
    lemma_non_blank_identity(sel);
    lemma_layout_values();
}

/// The non-blank lines of the readable files, one file after the other, as
/// they were read.
pub open spec fn read_lines(files: Seq<SourceFile>) -> Seq<Seq<char>>
    decreases files.len(),
{
    if files.len() == 0 {
        seq![]
    } else {
        let rest = read_lines(files.drop_first());
        match files[0].content {
            Ok(raw) => non_blank(spec_lines(raw@)) + rest,
            Err(_) => rest,
        }
    }
}

proof fn lemma_keep_comments_lines(
    ls: Seq<Seq<char>>,
    syn: CommentSyntax,
    config: ExtractionConfig,
    block: Option<BlockComment>,
)
    requires
        !config.remove_comments,
    ensures
        non_blank(clean_lines(ls, syn, config, block)) == non_blank(ls),
    decreases ls.len(),
{
    if ls.len() > 0 {
        let rest = ls.drop_first();
        assert(clean_line(ls[0], syn, config, block) == (ls[0], block));
        lemma_keep_comments_lines(rest, syn, config, block);
        let r = clean_lines(rest, syn, config, block);
        if !(config.compact_lines && is_blank(ls[0])) {
            let all = seq![ls[0]] + r;
            assert(all[0] == ls[0]);
            assert(all.drop_first() == r);
        }
    }
}

/// When comments are kept, extraction takes the files' text as it is: the
/// lines collected are the non-blank lines of the readable files, in order
/// (for files whose lines do not end in a carriage return before their line
/// break).
pub proof fn law_kept_comments_keep_the_text(files: Seq<SourceFile>, config: ExtractionConfig)
    requires
        !config.remove_comments,
        forall|i: int|
            0 <= i < files.len() ==> ((#[trigger] files[i]).content matches Ok(raw) ==> is_line_list(
                spec_lines(raw@),
            )),
    ensures
        collected_lines(files, config) == read_lines(files),
    decreases files.len(),
{
    if files.len() > 0 {
        let rest = files.drop_first();
        assert forall|i: int|
            0 <= i < rest.len() implies ((#[trigger] rest[i]).content matches Ok(raw) ==> is_line_list(
            spec_lines(raw@),
        )) by {
            assert(rest[i] == files[i + 1]);
        }
        law_kept_comments_keep_the_text(rest, config);
        let f = files[0];
        match f.content {
            Ok(raw) => {
                let ls = spec_lines(raw@);
                lemma_keep_comments_lines(ls, syntax_of(normalize_ext(f.extension@)), config, None);
                lemma_non_blank_plain(ls);
                lemma_split_join(non_blank(ls));
                assert(file_lines(f, config) == non_blank(ls));
            },
            Err(_) => {},
        }
    }
}

} // verus!
