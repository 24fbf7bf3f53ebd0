//! Blank-line removal, the page count of a text, and the choice of the lines
//! that go into a submission (all of them, or the first and last pages).
use vstd::prelude::*;

use crate::layout::{
    code_lines_per_page, copyright_side_lines, lemma_layout_values, lines_per_page,
    max_lines, max_submission_lines, page_count, page_count_for_line_count, side_lines,
};
use crate::text::{
    copy_string, is_blank, is_blank_str, is_plain_line, join_lines, join_with_newlines,
    lemma_split_join, spec_lines, split_lines,
};
use crate::types::ExtractedCode;

verus! {

/// The lines of `ls` that are not blank, in order.
pub open spec fn non_blank(ls: Seq<Seq<char>>) -> Seq<Seq<char>>
    decreases ls.len(),
{
    if ls.len() == 0 {
        seq![]
    } else if is_blank(ls[0]) {
        non_blank(ls.drop_first())
    } else {
        seq![ls[0]] + non_blank(ls.drop_first())
    }
}

/// `r` describes the text made of the non-blank lines of `lines`: their
/// newline-joined content, their number, and the pages they fill.
pub open spec fn spec_extracted(r: ExtractedCode, lines: Seq<Seq<char>>) -> bool {
    let kept = non_blank(lines);
    &&& r.content@ == join_lines(kept)
    &&& r.line_count == kept.len()
    &&& r.lines_per_page == lines_per_page()
    &&& r.page_count == page_count(kept.len() as int)
}

/// The lines submitted from `lines`: the non-blank ones, all of them when they
/// fit in the maximum, else the first and the last `side_lines()` of them.
pub open spec fn spec_select(lines: Seq<Seq<char>>) -> Seq<Seq<char>> {
    let kept = non_blank(lines);
    if kept.len() <= max_lines() {
        kept
    } else {
        kept.take(side_lines()) + kept.skip(kept.len() - side_lines())
    }
}

proof fn lemma_non_blank_skip(ls: Seq<Seq<char>>, i: int)
    requires
        0 <= i < ls.len(),
    ensures
        non_blank(ls.skip(i)) == (if is_blank(ls[i]) {
            non_blank(ls.skip(i + 1))
        } else {
            seq![ls[i]] + non_blank(ls.skip(i + 1))
        }),
{
    assert(ls.skip(i).drop_first() == ls.skip(i + 1));
    assert(ls.skip(i)[0] == ls[i]);
}

/// Every line kept by `non_blank` is non-blank, and there are no more of them
/// than lines.
pub proof fn lemma_non_blank_props(ls: Seq<Seq<char>>)
    ensures
        non_blank(ls).len() <= ls.len(),
        forall|i: int| 0 <= i < non_blank(ls).len() ==> !is_blank(#[trigger] non_blank(ls)[i]),
    decreases ls.len(),
{
    if ls.len() > 0 {
        lemma_non_blank_props(ls.drop_first());
        let rest = non_blank(ls.drop_first());
        if !is_blank(ls[0]) {
            assert forall|i: int| 0 <= i < non_blank(ls).len() implies !is_blank(
                #[trigger] non_blank(ls)[i],
            ) by {
                if i > 0 {
                    assert(non_blank(ls)[i] == rest[i - 1]);
                }
            }
        }
    }
}

/// Every line kept by `non_blank` is one of the given lines.
pub proof fn lemma_non_blank_members(ls: Seq<Seq<char>>)
    ensures
        forall|i: int|
            0 <= i < non_blank(ls).len() ==> exists|j: int|
                0 <= j < ls.len() && #[trigger] non_blank(ls)[i] == ls[j],
    decreases ls.len(),
{
    if ls.len() > 0 {
        let rest = ls.drop_first();
        lemma_non_blank_members(rest);
        let nb = non_blank(ls);
        assert forall|i: int| 0 <= i < nb.len() implies exists|j: int|
            0 <= j < ls.len() && #[trigger] nb[i] == ls[j] by {
            if is_blank(ls[0]) {
                assert(nb == non_blank(rest));
                let j = choose|j: int| 0 <= j < rest.len() && non_blank(rest)[i] == rest[j];
                assert(rest[j] == ls[j + 1]);
            } else {
                assert(nb == seq![ls[0]] + non_blank(rest));
                if i == 0 {
                    assert(nb[0] == ls[0]);
                } else {
                    assert(nb[i] == non_blank(rest)[i - 1]);
                    let j = choose|j: int| 0 <= j < rest.len() && non_blank(rest)[i - 1] == rest[j];
                    assert(rest[j] == ls[j + 1]);
                }
            }
        }
    }
}

/// Lines that are all non-blank are kept as they are.
pub proof fn lemma_non_blank_identity(ls: Seq<Seq<char>>)
    requires
        forall|i: int| 0 <= i < ls.len() ==> !is_blank(#[trigger] ls[i]),
    ensures
        non_blank(ls) == ls,
    decreases ls.len(),
{
    if ls.len() > 0 {
        assert forall|i: int| 0 <= i < ls.drop_first().len() implies !is_blank(
            #[trigger] ls.drop_first()[i],
        ) by {
            assert(ls.drop_first()[i] == ls[i + 1]);
        }
        lemma_non_blank_identity(ls.drop_first());
        assert(seq![ls[0]] + ls.drop_first() == ls);
    }
}

/// The lines of `lines` that are not blank.
pub fn non_empty_lines(lines: Vec<String>) -> (kept: Vec<String>)
    ensures
        kept.deep_view() == non_blank(lines.deep_view()),
{
    let mut kept: Vec<String> = Vec::new();
    let mut i: usize = 0;
    proof {
        assert(lines.deep_view().skip(0) == lines.deep_view());
    }
    while i < lines.len()
        invariant
            i <= lines.len(),
            non_blank(lines.deep_view()) == kept.deep_view() + non_blank(
                lines.deep_view().skip(i as int),
            ),
        decreases lines.len() - i,
    {
        proof {
            lemma_non_blank_skip(lines.deep_view(), i as int);
        }
        if !is_blank_str(lines[i].as_str()) {
            let ghost before = kept.deep_view();
            kept.push(copy_string(&lines[i]));
            proof {
                assert(kept.deep_view() == before.push(lines.deep_view()[i as int]));
                assert(before + (seq![lines.deep_view()[i as int]] + non_blank(
                    lines.deep_view().skip(i + 1),
                )) == kept.deep_view() + non_blank(lines.deep_view().skip(i + 1)));
            }
        }
        i = i + 1;
    }
    proof {
        assert(lines.deep_view().skip(i as int) == Seq::<Seq<char>>::empty());
        assert(kept.deep_view() + Seq::<Seq<char>>::empty() == kept.deep_view());
    }
    kept
}

/// The extracted text of `lines`: blank lines dropped, the rest joined by
/// newlines and counted in lines and pages.
pub fn extracted_from_lines(lines: Vec<String>) -> (r: ExtractedCode)
    ensures
        spec_extracted(r, lines.deep_view()),
{
    let lines = non_empty_lines(lines);
    let line_count = lines.len();
    let lines_per_page = code_lines_per_page();
    ExtractedCode {
        content: join_with_newlines(&lines),
        line_count,
        lines_per_page,
        page_count: page_count_for_line_count(line_count),
    }
}

/// The lines that are submitted: the non-blank ones, and when there are more
/// than the maximum, only the first and the last pages' worth.
pub fn select_submission_lines(lines: Vec<String>) -> (selected: Vec<String>)
    ensures
        selected.deep_view() == spec_select(lines.deep_view()),
{
    let lines = non_empty_lines(lines);
    let max_lines = max_submission_lines();
    if lines.len() <= max_lines {
        return lines;
    }
    let total = lines.len();
    let side_lines = copyright_side_lines();
    proof {
        lemma_layout_values();
    }
    let ghost kept = lines.deep_view();
    let mut selected: Vec<String> = Vec::new();
    let mut i: usize = 0;
    while i < side_lines
        invariant
            kept == lines.deep_view(),
            total == lines.len(),
            side_lines == 1950,
            total > 3900,
            i <= side_lines,
            selected.deep_view() == kept.take(i as int),
        decreases side_lines - i,
    {
        let ghost before = selected.deep_view();
        selected.push(copy_string(&lines[i]));
        proof {
            assert(kept.take(i + 1) == before.push(kept[i as int]));
        }
        i = i + 1;
    }
    let mut j: usize = total - side_lines;
    while j < total
        invariant
            kept == lines.deep_view(),
            total == lines.len(),
            side_lines == 1950,
            total > 3900,
            total - side_lines <= j <= total,
            selected.deep_view() == kept.take(side_lines as int) + kept.subrange(
                total - side_lines,
                j as int,
            ),
        decreases total - j,
    {
        let ghost before = selected.deep_view();
        selected.push(copy_string(&lines[j]));
        proof {
            assert(kept.subrange(total - side_lines, j + 1) == kept.subrange(
                total - side_lines,
                j as int,
            ).push(kept[j as int]));
            assert(before.push(kept[j as int]) == kept.take(side_lines as int) + kept.subrange(
                total - side_lines,
                j + 1,
            ));
        }
        j = j + 1;
    }
    proof {
        assert(kept.subrange(total - side_lines, total as int) == kept.skip(total - side_lines));
    }
    selected
}

/// The lines submitted from a text: its lines, selected as
/// `select_submission_lines` does.
pub fn submission_lines_from_content(content: &str) -> (selected: Vec<String>)
    ensures
        selected.deep_view() == spec_select(spec_lines(content@)),
{
    select_submission_lines(split_lines(content))
}

// ---------------------------------------------------------------------------
// Laws
// ---------------------------------------------------------------------------
/// The selection is the kept lines when they fit, else exactly the maximum
/// number of lines; it never holds a blank line.
pub proof fn law_selection_size(ls: Seq<Seq<char>>)
    ensures
        spec_select(ls).len() == (if non_blank(ls).len() <= max_lines() {
            non_blank(ls).len() as int
        } else {
            max_lines()
        }),
        spec_select(ls).len() <= max_lines(),
        forall|i: int| 0 <= i < spec_select(ls).len() ==> !is_blank(#[trigger] spec_select(ls)[i]),
{
    lemma_layout_values();
    lemma_non_blank_props(ls);
    let kept = non_blank(ls);
    if kept.len() > max_lines() {
        let sel = spec_select(ls);
        assert forall|i: int| 0 <= i < sel.len() implies !is_blank(#[trigger] sel[i]) by {
            if i < side_lines() {
                assert(sel[i] == kept[i]);
            } else {
                assert(sel[i] == kept[kept.len() - side_lines() + (i - side_lines())]);
            }
        }
    }
}

/// Selecting the submission from a submission changes nothing.
pub proof fn law_selection_idempotent(ls: Seq<Seq<char>>)
    ensures
        spec_select(spec_select(ls)) == spec_select(ls),
{
    law_selection_size(ls);
    lemma_non_blank_identity(spec_select(ls));
}

/// Lines free of newlines and of a carriage return at their end.
pub open spec fn is_line_list(ls: Seq<Seq<char>>) -> bool {
    forall|k: int|
        0 <= k < ls.len() ==> !(#[trigger] ls[k]).contains('\n') && (ls[k].len() > 0 ==> ls[k].last()
            != '\r')
}

pub proof fn lemma_non_blank_plain(ls: Seq<Seq<char>>)
    requires
        is_line_list(ls),
    ensures
        forall|k: int| 0 <= k < non_blank(ls).len() ==> is_plain_line(#[trigger] non_blank(ls)[k]),
    decreases ls.len(),
{
    if ls.len() > 0 {
        let rest = ls.drop_first();
        assert forall|k: int| 0 <= k < rest.len() implies !(#[trigger] rest[k]).contains('\n') && (
        rest[k].len() > 0 ==> rest[k].last() != '\r') by {
            assert(rest[k] == ls[k + 1]);
        }
        lemma_non_blank_plain(rest);
        if !is_blank(ls[0]) {
            assert(ls[0].len() > 0) by {
                if ls[0].len() == 0 {
                    assert(is_blank(ls[0]));
                }
            }
            let nb = non_blank(ls);
            assert(nb == seq![ls[0]] + non_blank(rest));
            assert(!ls[0].contains('\n') && ls[0].last() != '\r');
            assert forall|k: int| 0 <= k < nb.len() implies is_plain_line(#[trigger] nb[k]) by {
                if k > 0 {
                    assert(nb[k] == non_blank(rest)[k - 1]);
                } else {
                    assert(nb[0] == ls[0]);
                }
            }
        } else {
            assert(non_blank(ls) == non_blank(rest));
        }
    }
}

/// Exporting the text that extraction produced submits the same lines as
/// selecting from the extracted lines directly (for lines that hold no
/// newline and do not end in a carriage return).
pub proof fn law_extracted_text_reads_back(ls: Seq<Seq<char>>)
    requires
        is_line_list(ls),
    ensures
        spec_select(spec_lines(join_lines(non_blank(ls)))) == spec_select(ls),
{
    lemma_non_blank_plain(ls);
    lemma_split_join(non_blank(ls));
    lemma_non_blank_props(ls);
    lemma_non_blank_identity(non_blank(ls));
}

} // verus!
