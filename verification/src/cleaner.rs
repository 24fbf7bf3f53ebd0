//! Comment removal, line by line, for the languages the tool knows.
//!
//! A line is scanned as a sequence of characters. String literals are copied
//! untouched; comment openers that the file's language recognises start a
//! comment that is dropped. A block comment that does not close on its line
//! is carried to the next line through the block state.
use vstd::prelude::*;

use crate::pagination::{
    extracted_from_lines, lemma_non_blank_members, lemma_non_blank_props, non_blank,
    spec_extracted,
};
use crate::text::{
    all_ws, chars_of, copy_string, is_blank, is_blank_chars, is_blank_str, spec_lines,
    split_lines, string_of_chars, trim_end, trim_end_string, is_subseq,
    lemma_subseq_longer_prefix, is_ws, join_lines, lemma_lines_lack_newline,
    lemma_pieces_of_join, lemma_subseq_lacks, lemma_trim_end, newline_pieces,
};
use crate::types::{ExtractedCode, ExtractionConfig};

verus! {

// ---------------------------------------------------------------------------
// Block comments
// ---------------------------------------------------------------------------
/// The kinds of block comment, each closed by its own marker.
#[derive(Clone, Copy, PartialEq, Eq, Structural, Debug)]
pub enum BlockComment {
    SlashStar,
    Html,
    PythonTripleDouble,
    PythonTripleSingle,
    PowerShell,
}

/// The marker that closes a block comment.
pub open spec fn block_end(b: BlockComment) -> Seq<char> {
    match b {
        BlockComment::SlashStar => seq!['*', '/'],
        BlockComment::Html => seq!['-', '-', '>'],
        BlockComment::PythonTripleDouble => seq!['"', '"', '"'],
        BlockComment::PythonTripleSingle => seq!['\'', '\'', '\''],
        BlockComment::PowerShell => seq!['#', '>'],
    }
}

impl BlockComment {
    pub fn end_marker(self) -> (m: &'static str)
        ensures
            m@ == block_end(self),
    {
        match self {
            BlockComment::SlashStar => {
                proof {
                    reveal_strlit("*/");
                }
                "*/"
            },
            BlockComment::Html => {
                proof {
                    reveal_strlit("-->");
                }
                "-->"
            },
            BlockComment::PythonTripleDouble => {
                proof {
                    reveal_strlit("\"\"\"");
                }
                "\"\"\""
            },
            BlockComment::PythonTripleSingle => {
                proof {
                    reveal_strlit("'''");
                }
                "'''"
            },
            BlockComment::PowerShell => {
                proof {
                    reveal_strlit("#>");
                }
                "#>"
            },
        }
    }
}

// ---------------------------------------------------------------------------
// Comment syntax of a language
// ---------------------------------------------------------------------------
/// Which comment forms (and which string form) a language has.
#[derive(Clone, Copy, PartialEq, Eq, Structural, Debug)]
pub struct CommentSyntax {
    pub slash_line: bool,
    pub slash_block: bool,
    pub hash_line: bool,
    pub sql_line: bool,
    pub html_block: bool,
    pub python_triple: bool,
    pub powershell_block: bool,
    pub backtick_string: bool,
}

/// `s` without its leading dots.
pub open spec fn drop_leading_dots(s: Seq<char>) -> Seq<char>
    decreases s.len(),
{
    if s.len() > 0 && s[0] == '.' {
        drop_leading_dots(s.drop_first())
    } else {
        s
    }
}

/// ASCII upper-case letters mapped to lower case; every other character kept.
pub open spec fn ascii_lower(c: char) -> char {
    if 'A' <= c <= 'Z' {
        ((c as u32) + 32) as char
    } else {
        c
    }
}

/// The extension as the syntax table reads it: no leading dots, ASCII lower case.
pub open spec fn normalize_ext(ext: Seq<char>) -> Seq<char> {
    drop_leading_dots(ext).map_values(|c: char| ascii_lower(c))
}

pub open spec fn is_c_like(n: Seq<char>) -> bool {
    ||| n == "c"@
    ||| n == "cpp"@
    ||| n == "cc"@
    ||| n == "h"@
    ||| n == "hpp"@
    ||| n == "cs"@
    ||| n == "java"@
    ||| n == "js"@
    ||| n == "jsx"@
    ||| n == "ts"@
    ||| n == "tsx"@
    ||| n == "rs"@
    ||| n == "go"@
    ||| n == "php"@
    ||| n == "swift"@
    ||| n == "m"@
    ||| n == "mm"@
    ||| n == "kt"@
    ||| n == "scala"@
    ||| n == "dart"@
    ||| n == "fs"@
    ||| n == "vb"@
}

pub open spec fn is_css_like(n: Seq<char>) -> bool {
    n == "css"@ || n == "scss"@ || n == "less"@
}

/// The comment syntax of the language with the normalized extension `n`.
pub open spec fn syntax_of(n: Seq<char>) -> CommentSyntax {
    CommentSyntax {
        slash_line: is_c_like(n) || n == "scss"@ || n == "less"@ || n == "vue"@,
        slash_block: is_c_like(n) || is_css_like(n) || n == "sql"@ || n == "vue"@,
        hash_line: n == "py"@ || n == "sh"@ || n == "rb"@ || n == "ps1"@,
        sql_line: n == "sql"@,
        html_block: n == "html"@ || n == "htm"@ || n == "xml"@ || n == "vue"@ || n == "svelte"@,
        python_triple: n == "py"@,
        powershell_block: n == "ps1"@,
        backtick_string: n == "js"@ || n == "jsx"@ || n == "ts"@ || n == "tsx"@ || n == "vue"@,
    }
}

/// The syntax with no comment form at all (an unknown language).
pub open spec fn no_comments() -> CommentSyntax {
    CommentSyntax {
        slash_line: false,
        slash_block: false,
        hash_line: false,
        sql_line: false,
        html_block: false,
        python_triple: false,
        powershell_block: false,
        backtick_string: false,
    }
}

/// `v == s`, character by character.
pub fn chars_eq_str(v: &Vec<char>, s: &str) -> (b: bool)
    ensures
        b == (v@ == s@),
{
    let n = s.unicode_len();
    if n != v.len() {
        return false;
    }
    let mut i: usize = 0;
    while i < n
        invariant
            n == s@.len() == v.len(),
            i <= n,
            forall|j: int| 0 <= j < i ==> v@[j] == s@[j],
        decreases n - i,
    {
        if v[i] != s.get_char(i) {
            return false;
        }
        i = i + 1;
    }
    proof {
        assert(v@ == s@);
    }
    true
}

fn lower_char(c: char) -> (r: char)
    ensures
        r == ascii_lower(c),
{
    if 'A' <= c && c <= 'Z' {
        let u = c as u8;
        (u + 32) as char
    } else {
        c
    }
}

/// The extension without leading dots, in ASCII lower case.
pub fn normalized_extension(ext: &str) -> (n: Vec<char>)
    ensures
        n@ == normalize_ext(ext@),
{
    let v = chars_of(ext);
    let mut start: usize = 0;
    proof {
        assert(v@.skip(0) == v@);
    }
    while start < v.len() && v[start] == '.'
        invariant
            v@ == ext@,
            start <= v.len(),
            drop_leading_dots(v@.skip(start as int)) == drop_leading_dots(ext@),
        decreases v.len() - start,
    {
        proof {
            assert(v@.skip(start as int).drop_first() == v@.skip(start + 1));
        }
        start = start + 1;
    }
    let ghost rest = v@.skip(start as int);
    assert(drop_leading_dots(rest) == rest);
    let mut n: Vec<char> = Vec::new();
    let mut i = start;
    while i < v.len()
        invariant
            v@ == ext@,
            start <= i <= v.len(),
            rest == v@.skip(start as int),
            n@ == rest.take(i - start).map_values(|c: char| ascii_lower(c)),
        decreases v.len() - i,
    {
        n.push(lower_char(v[i]));
        proof {
            assert(rest.take(i + 1 - start) == rest.take(i - start).push(v@[i as int]));
            assert(n@ == rest.take(i + 1 - start).map_values(|c: char| ascii_lower(c)));
        }
        i = i + 1;
    }
    proof {
        assert(rest.take(i - start) == rest);
    }
    n
}

fn c_like(n: &Vec<char>) -> (b: bool)
    ensures
        b == is_c_like(n@),
{
    chars_eq_str(n, "c") || chars_eq_str(n, "cpp") || chars_eq_str(n, "cc") || chars_eq_str(n, "h")
        || chars_eq_str(n, "hpp") || chars_eq_str(n, "cs") || chars_eq_str(n, "java")
        || chars_eq_str(n, "js") || chars_eq_str(n, "jsx") || chars_eq_str(n, "ts")
        || chars_eq_str(n, "tsx") || chars_eq_str(n, "rs") || chars_eq_str(n, "go")
        || chars_eq_str(n, "php") || chars_eq_str(n, "swift") || chars_eq_str(n, "m")
        || chars_eq_str(n, "mm") || chars_eq_str(n, "kt") || chars_eq_str(n, "scala")
        || chars_eq_str(n, "dart") || chars_eq_str(n, "fs") || chars_eq_str(n, "vb")
}

impl CommentSyntax {
    /// The comment syntax for a file extension (leading dots and ASCII case ignored).
    pub fn for_extension(ext: &str) -> (s: CommentSyntax)
        ensures
            s == syntax_of(normalize_ext(ext@)),
    {
        let n = normalized_extension(ext);
        let c_like = c_like(&n);
        let css_like = chars_eq_str(&n, "css") || chars_eq_str(&n, "scss") || chars_eq_str(
            &n,
            "less",
        );
        CommentSyntax {
            slash_line: c_like || chars_eq_str(&n, "scss") || chars_eq_str(&n, "less")
                || chars_eq_str(&n, "vue"),
            slash_block: c_like || css_like || chars_eq_str(&n, "sql") || chars_eq_str(&n, "vue"),
            hash_line: chars_eq_str(&n, "py") || chars_eq_str(&n, "sh") || chars_eq_str(&n, "rb")
                || chars_eq_str(&n, "ps1"),
            sql_line: chars_eq_str(&n, "sql"),
            html_block: chars_eq_str(&n, "html") || chars_eq_str(&n, "htm") || chars_eq_str(
                &n,
                "xml",
            ) || chars_eq_str(&n, "vue") || chars_eq_str(&n, "svelte"),
            python_triple: chars_eq_str(&n, "py"),
            powershell_block: chars_eq_str(&n, "ps1"),
            backtick_string: chars_eq_str(&n, "js") || chars_eq_str(&n, "jsx") || chars_eq_str(
                &n,
                "ts",
            ) || chars_eq_str(&n, "tsx") || chars_eq_str(&n, "vue"),
        }
    }
}

// ---------------------------------------------------------------------------
// Scanning one line
// ---------------------------------------------------------------------------
/// Where the scanner stands with respect to string literals.
#[derive(Clone, Copy, PartialEq, Eq, Structural, Debug)]
pub enum Quote {
    Outside,
    Double,
    Single,
    Backtick,
}

/// The character that closes a string literal of kind `q`.
pub open spec fn closing_char(q: Quote) -> char {
    match q {
        Quote::Double => '"',
        Quote::Single => '\'',
        _ => '`',
    }
}

/// `marker` occurs in `line` at `i`.
pub open spec fn starts_at(line: Seq<char>, i: int, marker: Seq<char>) -> bool {
    0 <= i && i + marker.len() <= line.len() && line.subrange(i, i + marker.len()) == marker
}

/// The first position at or after `k` where `pat` occurs in `s`.
pub open spec fn find_from(s: Seq<char>, pat: Seq<char>, k: int) -> Option<int>
    decreases s.len() + 1 - k,
{
    if k < 0 || k + pat.len() > s.len() {
        None
    } else if starts_at(s, k, pat) {
        Some(k)
    } else {
        find_from(s, pat, k + 1)
    }
}

/// From position `j` on, an unescaped `quote` follows (a backslash escapes
/// the character after it; `esc` tells whether the character at `j` is escaped).
pub open spec fn closes_from(line: Seq<char>, j: int, esc: bool, quote: char) -> bool
    decreases line.len() - j,
{
    if j < 0 || j >= line.len() {
        false
    } else if esc {
        closes_from(line, j + 1, false, quote)
    } else if line[j] == '\\' {
        closes_from(line, j + 1, true, quote)
    } else if line[j] == quote {
        true
    } else {
        closes_from(line, j + 1, false, quote)
    }
}

/// The comment that the text at `i` opens, where `out` is what was kept so far.
/// Triple quotes open a comment only as the first thing on a line.
pub open spec fn opener_at(line: Seq<char>, syn: CommentSyntax, i: int, out: Seq<char>) -> Option<
    (int, BlockComment),
> {
    if syn.python_triple && all_ws(out) && starts_at(line, i, seq!['"', '"', '"']) {
        Some((3int, BlockComment::PythonTripleDouble))
    } else if syn.python_triple && all_ws(out) && starts_at(line, i, seq!['\'', '\'', '\'']) {
        Some((3int, BlockComment::PythonTripleSingle))
    } else if syn.html_block && starts_at(line, i, seq!['<', '!', '-', '-']) {
        Some((4int, BlockComment::Html))
    } else if syn.powershell_block && starts_at(line, i, seq!['<', '#']) {
        Some((2int, BlockComment::PowerShell))
    } else if syn.slash_block && starts_at(line, i, seq!['/', '*']) {
        Some((2int, BlockComment::SlashStar))
    } else {
        None
    }
}

/// A comment that runs to the end of the line starts at `i`.
pub open spec fn line_comment_at(line: Seq<char>, syn: CommentSyntax, i: int) -> bool {
    ||| syn.slash_line && starts_at(line, i, seq!['/', '/'])
    ||| syn.sql_line && starts_at(line, i, seq!['-', '-'])
    ||| syn.hash_line && starts_at(line, i, seq!['#'])
}

/// The scanner, from position `i` of `line`: it returns what is kept of the
/// line and the block comment left open at its end.
///
/// Inside a block comment, characters are dropped up to the closing marker.
/// Inside a string literal, characters are kept; the unescaped closing quote
/// ends the literal. Outside both, a block opener enters a block comment, a line
/// comment ends the line, and a quote starts a literal (a single quote only
/// when an unescaped single quote follows it on the line).
pub open spec fn scan(
    line: Seq<char>,
    syn: CommentSyntax,
    i: int,
    q: Quote,
    esc: bool,
    block: Option<BlockComment>,
    out: Seq<char>,
) -> (Seq<char>, Option<BlockComment>)
    decreases line.len() - i, if block is Some { 0int } else { 1int },
{
    if i < 0 || i >= line.len() {
        (out, block)
    } else if let Some(b) = block {
        if starts_at(line, i, block_end(b)) {
            scan(line, syn, i + block_end(b).len(), q, esc, None, out)
        } else {
            scan(line, syn, i + 1, q, esc, block, out)
        }
    } else if q != Quote::Outside {
        let ch = line[i];
        let out2 = out.push(ch);
        if esc {
            scan(line, syn, i + 1, q, false, None, out2)
        } else if ch == '\\' {
            scan(line, syn, i + 1, q, true, None, out2)
        } else if ch == closing_char(q) {
            scan(line, syn, i + 1, Quote::Outside, false, None, out2)
        } else {
            scan(line, syn, i + 1, q, false, None, out2)
        }
    } else if let Some((len, b)) = opener_at(line, syn, i, out) {
        scan(line, syn, i + len, q, esc, Some(b), out)
    } else if line_comment_at(line, syn, i) {
        (out, None)
    } else {
        let ch = line[i];
        let out2 = out.push(ch);
        if ch == '"' {
            scan(line, syn, i + 1, Quote::Double, false, None, out2)
        } else if ch == '\'' && closes_from(line, i + 1, false, '\'') {
            scan(line, syn, i + 1, Quote::Single, false, None, out2)
        } else if syn.backtick_string && ch == '`' {
            scan(line, syn, i + 1, Quote::Backtick, false, None, out2)
        } else {
            scan(line, syn, i + 1, q, esc, None, out2)
        }
    }
}

/// What is kept of `line`, and the block comment open at its end, when the
/// line starts inside `block` (or outside any comment).
pub open spec fn strip_line(line: Seq<char>, syn: CommentSyntax, block: Option<BlockComment>) -> (
    Seq<char>,
    Option<BlockComment>,
) {
    scan(line, syn, 0, Quote::Outside, false, block, seq![])
}

/// Inside block `b` from `k` on, the scanner drops everything up to the first
/// closing marker and goes on after it; with no closing marker the line ends
/// inside the block.
pub proof fn lemma_block_skip(
    line: Seq<char>,
    syn: CommentSyntax,
    k: int,
    q: Quote,
    esc: bool,
    b: BlockComment,
    out: Seq<char>,
)
    requires
        0 <= k <= line.len(),
    ensures
        scan(line, syn, k, q, esc, Some(b), out) == (match find_from(line, block_end(b), k) {
            Some(e) => scan(line, syn, e + block_end(b).len(), q, esc, None, out),
            None => (out, Some(b)),
        }),
    decreases line.len() - k,
{
    if k == line.len() {
    } else if starts_at(line, k, block_end(b)) {
    } else {
        lemma_block_skip(line, syn, k + 1, q, esc, b, out);
        if k + block_end(b).len() > line.len() {
            lemma_find_none_past(line, block_end(b), k + 1);
        }
    }
}

proof fn lemma_find_none_past(s: Seq<char>, pat: Seq<char>, k: int)
    requires
        k + pat.len() > s.len(),
    ensures
        find_from(s, pat, k) is None,
{
}

/// `marker` occurs in `line` at `index`.
pub fn starts_with_at(line: &Vec<char>, index: usize, marker: &str) -> (b: bool)
    ensures
        b == starts_at(line@, index as int, marker@),
{
    let m = marker.unicode_len();
    if index > line.len() || m > line.len() - index {
        return false;
    }
    let mut j: usize = 0;
    while j < m
        invariant
            m == marker@.len(),
            index + m <= line.len(),
            j <= m,
            forall|t: int| 0 <= t < j ==> line@[index + t] == marker@[t],
        decreases m - j,
    {
        if line[index + j] != marker.get_char(j) {
            proof {
                assert(line@.subrange(index as int, index + m)[j as int] == line@[index + j]);
            }
            return false;
        }
        j = j + 1;
    }
    proof {
        assert(line@.subrange(index as int, index + m) == marker@);
    }
    true
}

/// An unescaped `quote` occurs in `line` at or after `start`.
pub fn has_closing_quote(line: &Vec<char>, start: usize, quote: char) -> (b: bool)
    requires
        start <= line.len(),
    ensures
        b == closes_from(line@, start as int, false, quote),
{
    let mut escaped = false;
    let mut j = start;
    while j < line.len()
        invariant
            start <= j <= line.len(),
            closes_from(line@, j as int, escaped, quote) == closes_from(
                line@,
                start as int,
                false,
                quote,
            ),
        decreases line.len() - j,
    {
        let ch = line[j];
        if escaped {
            escaped = false;
        } else if ch == '\\' {
            escaped = true;
        } else if ch == quote {
            return true;
        }
        j = j + 1;
    }
    false
}

/// The first occurrence of `pat` in `line` at or after `from`.
pub fn find_at_or_after(line: &Vec<char>, pat: &str, from: usize) -> (r: Option<usize>)
    requires
        from <= line.len(),
    ensures
        match r {
            Some(e) => find_from(line@, pat@, from as int) == Some(e as int),
            None => find_from(line@, pat@, from as int) is None,
        },
{
    let m = pat.unicode_len();
    let mut k = from;
    while m <= line.len() && k <= line.len() - m
        invariant
            from <= k,
            m == pat@.len(),
            find_from(line@, pat@, k as int) == find_from(line@, pat@, from as int),
        decreases line.len() + 1 - k,
    {
        if starts_with_at(line, k, pat) {
            return Some(k);
        }
        if k == line.len() {
            assert(find_from(line@, pat@, k + 1) is None);
            return None;
        }
        k = k + 1;
    }
    None
}

/// Skips a block comment whose opener `start_marker` stands at `start`: the
/// position after its closing marker on this line, or the end of the line with
/// `block` left open.
pub fn skip_block_or_set(
    line: &Vec<char>,
    start: usize,
    start_marker: &str,
    block: BlockComment,
    block_state: &mut Option<BlockComment>,
) -> (next: usize)
    requires
        start + start_marker@.len() <= line.len(),
    ensures
        ({
            let cs = start + start_marker@.len();
            match find_from(line@, block_end(block), cs) {
                Some(e) => next == e + block_end(block).len() && *final(block_state) == *old(
                    block_state,
                ),
                None => next == line.len() && *final(block_state) == Some(block),
            }
        }),
{
    let content_start = start + start_marker.unicode_len();
    let end_marker = block.end_marker();
    match find_at_or_after(line, end_marker, content_start) {
        Some(end) => {
            proof {
                lemma_find_bounds(line@, block_end(block), content_start as int);
            }
            end + end_marker.unicode_len()
        },
        None => {
            *block_state = Some(block);
            line.len()
        },
    }
}

/// The closing character of a string literal, as the scanner checks it.
fn closing_quote_char(q: Quote) -> (c: char)
    ensures
        c == closing_char(q),
{
    match q {
        Quote::Double => '"',
        Quote::Single => '\'',
        _ => '`',
    }
}

/// Removes the comments of `line`, given the block comment it starts in;
/// `block_state` is left holding the block comment still open at its end.
pub fn strip_comments_from_line(
    line: &str,
    syntax: CommentSyntax,
    block_state: &mut Option<BlockComment>,
) -> (output: String)
    ensures
        (output@, *final(block_state)) == strip_line(line@, syntax, *old(block_state)),
{
    let chars = chars_of(line);
    let ghost b0 = *block_state;
    let mut output: Vec<char> = Vec::new();
    let mut i: usize = 0;
    let mut quote = Quote::Outside;
    let mut escaped = false;
    proof {
        reveal_strlit("\"\"\"");
        reveal_strlit("'''");
        reveal_strlit("<!--");
        reveal_strlit("<#");
        reveal_strlit("/*");
        reveal_strlit("//");
        reveal_strlit("--");
        reveal_strlit("#");
    }
    while i < chars.len()
        invariant
            chars@ == line@,
            b0 == *old(block_state),
            i <= chars.len(),
            "\"\"\""@ == seq!['"', '"', '"'],
            "'''"@ == seq!['\'', '\'', '\''],
            "<!--"@ == seq!['<', '!', '-', '-'],
            "<#"@ == seq!['<', '#'],
            "/*"@ == seq!['/', '*'],
            "//"@ == seq!['/', '/'],
            "--"@ == seq!['-', '-'],
            "#"@ == seq!['#'],
            strip_line(line@, syntax, b0) == scan(
                chars@,
                syntax,
                i as int,
                quote,
                escaped,
                *block_state,
                output@,
            ),
        decreases chars.len() - i,
    {
        if let Some(state) = *block_state {
            let marker = state.end_marker();
            if starts_with_at(&chars, i, marker) {
                i = i + marker.unicode_len();
                *block_state = None;
            } else {
                i = i + 1;
            }
            continue;
        }
        let ch = chars[i];
        if quote != Quote::Outside {
            output.push(ch);
            i = i + 1;
            if escaped {
                escaped = false;
            } else if ch == '\\' {
                escaped = true;
            } else if ch == closing_quote_char(quote) {
                quote = Quote::Outside;
            }
            continue;
        }
        let ghost out0 = output@;
        let ghost i0 = i as int;
        if syntax.python_triple && is_blank_chars(&output) && starts_with_at(&chars, i, "\"\"\"") {
            i = skip_block_or_set(&chars, i, "\"\"\"", BlockComment::PythonTripleDouble, block_state);
            proof {
                lemma_block_skip(chars@, syntax, i0 + 3, quote, escaped, BlockComment::PythonTripleDouble, out0);
                lemma_find_bounds(chars@, block_end(BlockComment::PythonTripleDouble), i0 + 3);
            }
            continue;
        }
        if syntax.python_triple && is_blank_chars(&output) && starts_with_at(&chars, i, "'''") {
            i = skip_block_or_set(&chars, i, "'''", BlockComment::PythonTripleSingle, block_state);
            proof {
                lemma_block_skip(chars@, syntax, i0 + 3, quote, escaped, BlockComment::PythonTripleSingle, out0);
                lemma_find_bounds(chars@, block_end(BlockComment::PythonTripleSingle), i0 + 3);
            }
            continue;
        }
        if syntax.html_block && starts_with_at(&chars, i, "<!--") {
            i = skip_block_or_set(&chars, i, "<!--", BlockComment::Html, block_state);
            proof {
                lemma_block_skip(chars@, syntax, i0 + 4, quote, escaped, BlockComment::Html, out0);
                lemma_find_bounds(chars@, block_end(BlockComment::Html), i0 + 4);
            }
            continue;
        }
        if syntax.powershell_block && starts_with_at(&chars, i, "<#") {
            i = skip_block_or_set(&chars, i, "<#", BlockComment::PowerShell, block_state);
            proof {
                lemma_block_skip(chars@, syntax, i0 + 2, quote, escaped, BlockComment::PowerShell, out0);
                lemma_find_bounds(chars@, block_end(BlockComment::PowerShell), i0 + 2);
            }
            continue;
        }
        if syntax.slash_block && starts_with_at(&chars, i, "/*") {
            i = skip_block_or_set(&chars, i, "/*", BlockComment::SlashStar, block_state);
            proof {
                lemma_block_skip(chars@, syntax, i0 + 2, quote, escaped, BlockComment::SlashStar, out0);
                lemma_find_bounds(chars@, block_end(BlockComment::SlashStar), i0 + 2);
            }
            continue;
        }
        assert(opener_at(chars@, syntax, i as int, output@) is None);
        assert(*block_state is None && quote == Quote::Outside);
        if syntax.slash_line && starts_with_at(&chars, i, "//") {
            return string_of_chars(&output);
        }
        if syntax.sql_line && starts_with_at(&chars, i, "--") {
            return string_of_chars(&output);
        }
        if syntax.hash_line && starts_with_at(&chars, i, "#") {
            return string_of_chars(&output);
        }
        if ch == '"' {
            quote = Quote::Double;
            escaped = false;
        } else if ch == '\'' && has_closing_quote(&chars, i + 1, '\'') {
            quote = Quote::Single;
            escaped = false;
        } else if syntax.backtick_string && ch == '`' {
            quote = Quote::Backtick;
            escaped = false;
        }
        output.push(ch);
        i = i + 1;
    }
    string_of_chars(&output)
}

/// A match found by `find_from` lies within the sequence.
pub proof fn lemma_find_bounds(s: Seq<char>, pat: Seq<char>, k: int)
    ensures
        find_from(s, pat, k) matches Some(e) ==> k <= e && e + pat.len() <= s.len() && starts_at(
            s,
            e,
            pat,
        ),
    decreases s.len() + 1 - k,
{
    if k < 0 || k + pat.len() > s.len() {
    } else if starts_at(s, k, pat) {
    } else {
        lemma_find_bounds(s, pat, k + 1);
    }
}

// ---------------------------------------------------------------------------
// Cleaning a whole file
// ---------------------------------------------------------------------------
/// One line after cleaning: its comments removed and trailing whitespace
/// dropped when comments are removed, as it is otherwise; and the block
/// comment open after it.
pub open spec fn clean_line(
    line: Seq<char>,
    syn: CommentSyntax,
    config: ExtractionConfig,
    block: Option<BlockComment>,
) -> (Seq<char>, Option<BlockComment>) {
    if config.remove_comments {
        let (kept, after) = strip_line(line, syn, block);
        (trim_end(kept), after)
    } else {
        (line, block)
    }
}

/// The lines of a file after cleaning, the first one starting inside `block`:
/// blank results are left out when lines are compacted.
pub open spec fn clean_lines(
    ls: Seq<Seq<char>>,
    syn: CommentSyntax,
    config: ExtractionConfig,
    block: Option<BlockComment>,
) -> Seq<Seq<char>>
    decreases ls.len(),
{
    if ls.len() == 0 {
        seq![]
    } else {
        let (line, after) = clean_line(ls[0], syn, config, block);
        let rest = clean_lines(ls.drop_first(), syn, config, after);
        if config.compact_lines && is_blank(line) {
            rest
        } else {
            seq![line] + rest
        }
    }
}

/// The cleaned lines of the text `raw` of a file with extension `ext`.
pub open spec fn spec_clean(raw: Seq<char>, ext: Seq<char>, config: ExtractionConfig) -> Seq<
    Seq<char>,
> {
    clean_lines(spec_lines(raw), syntax_of(normalize_ext(ext)), config, None)
}

/// Cleans the text of a source file with extension `ext` and lays it out.
pub fn clean_source_content(raw_content: &str, ext: &str, config: &ExtractionConfig) -> (r:
    ExtractedCode)
    ensures
        spec_extracted(r, spec_clean(raw_content@, ext@, *config)),
{
    let syntax = CommentSyntax::for_extension(ext);
    let mut block_state: Option<BlockComment> = None;
    let raw_lines = split_lines(raw_content);
    let ghost raw = raw_lines.deep_view();
    let mut lines: Vec<String> = Vec::new();
    let mut i: usize = 0;
    proof {
        assert(raw.skip(0) == raw);
    }
    while i < raw_lines.len()
        invariant
            raw == raw_lines.deep_view(),
            raw == spec_lines(raw_content@),
            syntax == syntax_of(normalize_ext(ext@)),
            i <= raw_lines.len(),
            clean_lines(raw, syntax, *config, None) == lines.deep_view() + clean_lines(
                raw.skip(i as int),
                syntax,
                *config,
                block_state,
            ),
        decreases raw_lines.len() - i,
    {
        let ghost b = block_state;
        proof {
            assert(raw.skip(i as int).drop_first() == raw.skip(i + 1));
            assert(raw.skip(i as int)[0] == raw[i as int]);
        }
        let processed_line = if config.remove_comments {
            let stripped = strip_comments_from_line(raw_lines[i].as_str(), syntax, &mut block_state);
            trim_end_string(stripped.as_str())
        } else {
            copy_string(&raw_lines[i])
        };
        proof {
            assert((processed_line@, block_state) == clean_line(raw[i as int], syntax, *config, b));
        }
        if config.compact_lines && is_blank_str(processed_line.as_str()) {
            i = i + 1;
            continue;
        }
        let ghost before = lines.deep_view();
        lines.push(processed_line);
        proof {
            assert(lines.deep_view() == before.push(processed_line@));
            assert(before + (seq![processed_line@] + clean_lines(
                raw.skip(i + 1),
                syntax,
                *config,
                block_state,
            )) == lines.deep_view() + clean_lines(raw.skip(i + 1), syntax, *config, block_state));
        }
        i = i + 1;
    }
    proof {
        assert(raw.skip(i as int) == Seq::<Seq<char>>::empty());
        assert(lines.deep_view() + Seq::<Seq<char>>::empty() == lines.deep_view());
    }
    extracted_from_lines(lines)
}

// ---------------------------------------------------------------------------
// Laws
// ---------------------------------------------------------------------------
proof fn lemma_scan_no_comments(line: Seq<char>, i: int, q: Quote, esc: bool, out: Seq<char>)
    requires
        0 <= i <= line.len(),
    ensures
        scan(line, no_comments(), i, q, esc, None, out) == (out + line.skip(i), None::<
            BlockComment,
        >),
    decreases line.len() - i,
{
    if i == line.len() {
        assert(out + line.skip(i) == out);
    } else {
        let ch = line[i];
        assert(out.push(ch) + line.skip(i + 1) == out + line.skip(i)) by {
            assert(line.skip(i) == seq![ch] + line.skip(i + 1));
        }
        if q != Quote::Outside {
            if esc {
                lemma_scan_no_comments(line, i + 1, q, false, out.push(ch));
            } else if ch == '\\' {
                lemma_scan_no_comments(line, i + 1, q, true, out.push(ch));
            } else if ch == closing_char(q) {
                lemma_scan_no_comments(line, i + 1, Quote::Outside, false, out.push(ch));
            } else {
                lemma_scan_no_comments(line, i + 1, q, false, out.push(ch));
            }
        } else if ch == '"' {
            lemma_scan_no_comments(line, i + 1, Quote::Double, false, out.push(ch));
        } else if ch == '\'' && closes_from(line, i + 1, false, '\'') {
            lemma_scan_no_comments(line, i + 1, Quote::Single, false, out.push(ch));
        } else {
            lemma_scan_no_comments(line, i + 1, q, esc, out.push(ch));
        }
    }
}

/// A language without comment syntax keeps every line whole.
pub proof fn law_no_comment_syntax_keeps_line(line: Seq<char>)
    ensures
        strip_line(line, no_comments(), None) == (line, None::<BlockComment>),
{
    lemma_scan_no_comments(line, 0, Quote::Outside, false, seq![]);
    assert(seq![] + line.skip(0) == line);
}

proof fn lemma_scan_len(
    line: Seq<char>,
    syn: CommentSyntax,
    i: int,
    q: Quote,
    esc: bool,
    block: Option<BlockComment>,
    out: Seq<char>,
)
    requires
        0 <= i <= line.len(),
    ensures
        scan(line, syn, i, q, esc, block, out).0.len() <= out.len() + line.len() - i,
    decreases line.len() - i, if block is Some { 0int } else { 1int },
{
    if i == line.len() {
    } else if let Some(b) = block {
        if starts_at(line, i, block_end(b)) {
            lemma_scan_len(line, syn, i + block_end(b).len(), q, esc, None, out);
        } else {
            lemma_scan_len(line, syn, i + 1, q, esc, block, out);
        }
    } else if q != Quote::Outside {
        let ch = line[i];
        if esc {
            lemma_scan_len(line, syn, i + 1, q, false, None, out.push(ch));
        } else if ch == '\\' {
            lemma_scan_len(line, syn, i + 1, q, true, None, out.push(ch));
        } else if ch == closing_char(q) {
            lemma_scan_len(line, syn, i + 1, Quote::Outside, false, None, out.push(ch));
        } else {
            lemma_scan_len(line, syn, i + 1, q, false, None, out.push(ch));
        }
    } else if let Some((len, b)) = opener_at(line, syn, i, out) {
        lemma_scan_len(line, syn, i + len, q, esc, Some(b), out);
    } else if line_comment_at(line, syn, i) {
    } else {
        let ch = line[i];
        if ch == '"' {
            lemma_scan_len(line, syn, i + 1, Quote::Double, false, None, out.push(ch));
        } else if ch == '\'' && closes_from(line, i + 1, false, '\'') {
            lemma_scan_len(line, syn, i + 1, Quote::Single, false, None, out.push(ch));
        } else if syn.backtick_string && ch == '`' {
            lemma_scan_len(line, syn, i + 1, Quote::Backtick, false, None, out.push(ch));
        } else {
            lemma_scan_len(line, syn, i + 1, q, esc, None, out.push(ch));
        }
    }
}

/// Removing comments never lengthens a line.
pub proof fn law_strip_never_lengthens(
    line: Seq<char>,
    syn: CommentSyntax,
    block: Option<BlockComment>,
)
    ensures
        strip_line(line, syn, block).0.len() <= line.len(),
{
    lemma_scan_len(line, syn, 0, Quote::Outside, false, block, seq![]);
}

/// A line inside a block comment that does not hold the block's closing
/// marker is dropped entirely, and the block stays open after it.
pub proof fn law_open_block_swallows_line(line: Seq<char>, syn: CommentSyntax, b: BlockComment)
    requires
        find_from(line, block_end(b), 0) is None,
    ensures
        strip_line(line, syn, Some(b)) == (Seq::<char>::empty(), Some(b)),
{
    lemma_block_skip(line, syn, 0, Quote::Outside, false, b, seq![]);
}

proof fn lemma_compact_same_kept(
    ls: Seq<Seq<char>>,
    syn: CommentSyntax,
    remove_comments: bool,
    block: Option<BlockComment>,
)
    ensures
        non_blank(
            clean_lines(
                ls,
                syn,
                ExtractionConfig { remove_comments, compact_lines: true },
                block,
            ),
        ) == non_blank(
            clean_lines(ls, syn, ExtractionConfig { remove_comments, compact_lines: false }, block),
        ),
    decreases ls.len(),
{
    let c1 = ExtractionConfig { remove_comments, compact_lines: true };
    let c2 = ExtractionConfig { remove_comments, compact_lines: false };
    if ls.len() > 0 {
        let (line, after) = clean_line(ls[0], syn, c1, block);
        assert(clean_line(ls[0], syn, c2, block) == (line, after));
        lemma_compact_same_kept(ls.drop_first(), syn, remove_comments, after);
        let r1 = clean_lines(ls.drop_first(), syn, c1, after);
        let r2 = clean_lines(ls.drop_first(), syn, c2, after);
        let full = seq![line] + r2;
        assert(full[0] == line);
        assert(full.drop_first() == r2);
        if !is_blank(line) {
            let full1 = seq![line] + r1;
            assert(full1[0] == line);
            assert(full1.drop_first() == r1);
        }
    }
}

/// Compacting lines does not change what is extracted: blank lines never
/// reach the extracted text either way.
pub proof fn law_compaction_does_not_change_extraction(
    raw: Seq<char>,
    ext: Seq<char>,
    remove_comments: bool,
)
    ensures
        non_blank(spec_clean(raw, ext, ExtractionConfig { remove_comments, compact_lines: true }))
            == non_blank(
            spec_clean(raw, ext, ExtractionConfig { remove_comments, compact_lines: false }),
        ),
{
    lemma_compact_same_kept(spec_lines(raw), syntax_of(normalize_ext(ext)), remove_comments, None);
}

proof fn lemma_clean_lines_len(
    ls: Seq<Seq<char>>,
    syn: CommentSyntax,
    config: ExtractionConfig,
    block: Option<BlockComment>,
)
    ensures
        clean_lines(ls, syn, config, block).len() <= ls.len(),
    decreases ls.len(),
{
    if ls.len() > 0 {
        let (line, after) = clean_line(ls[0], syn, config, block);
        lemma_clean_lines_len(ls.drop_first(), syn, config, after);
    }
}

/// Cleaning never adds lines: a file yields at most as many cleaned lines as
/// it has lines.
pub proof fn law_cleaning_never_adds_lines(raw: Seq<char>, ext: Seq<char>, config: ExtractionConfig)
    ensures
        spec_clean(raw, ext, config).len() <= spec_lines(raw).len(),
{
    lemma_clean_lines_len(spec_lines(raw), syntax_of(normalize_ext(ext)), config, None);
}

proof fn lemma_scan_subseq(
    line: Seq<char>,
    syn: CommentSyntax,
    i: int,
    q: Quote,
    esc: bool,
    block: Option<BlockComment>,
    out: Seq<char>,
)
    requires
        0 <= i <= line.len(),
        is_subseq(out, line.take(i)),
    ensures
        is_subseq(scan(line, syn, i, q, esc, block, out).0, line),
    decreases line.len() - i, if block is Some { 0int } else { 1int },
{
    assert(line.take(line.len() as int) == line);
    if i == line.len() {
    } else if let Some(b) = block {
        if starts_at(line, i, block_end(b)) {
            lemma_subseq_longer_prefix(out, line, i, i + block_end(b).len());
            lemma_scan_subseq(line, syn, i + block_end(b).len(), q, esc, None, out);
        } else {
            lemma_subseq_longer_prefix(out, line, i, i + 1);
            lemma_scan_subseq(line, syn, i + 1, q, esc, block, out);
        }
    } else {
        let ch = line[i];
        let out2 = out.push(ch);
        assert(line.take(i + 1) == line.take(i).push(ch));
        assert(out2.drop_last() == out && out2.last() == ch);
        assert(line.take(i + 1).drop_last() == line.take(i));
        assert(line.take(i + 1).last() == ch);
        assert(is_subseq(out2, line.take(i + 1)));
        if q != Quote::Outside {
            if esc {
                lemma_scan_subseq(line, syn, i + 1, q, false, None, out2);
            } else if ch == '\\' {
                lemma_scan_subseq(line, syn, i + 1, q, true, None, out2);
            } else if ch == closing_char(q) {
                lemma_scan_subseq(line, syn, i + 1, Quote::Outside, false, None, out2);
            } else {
                lemma_scan_subseq(line, syn, i + 1, q, false, None, out2);
            }
        } else if let Some((len, b)) = opener_at(line, syn, i, out) {
            lemma_subseq_longer_prefix(out, line, i, i + len);
            lemma_scan_subseq(line, syn, i + len, q, esc, Some(b), out);
        } else if line_comment_at(line, syn, i) {
            lemma_subseq_longer_prefix(out, line, i, line.len() as int);
        } else if ch == '"' {
            lemma_scan_subseq(line, syn, i + 1, Quote::Double, false, None, out2);
        } else if ch == '\'' && closes_from(line, i + 1, false, '\'') {
            lemma_scan_subseq(line, syn, i + 1, Quote::Single, false, None, out2);
        } else if syn.backtick_string && ch == '`' {
            lemma_scan_subseq(line, syn, i + 1, Quote::Backtick, false, None, out2);
        } else {
            lemma_scan_subseq(line, syn, i + 1, q, esc, None, out2);
        }
    }
}

/// Removing comments only deletes characters: what is kept of a line is a
/// subsequence of it, in the same order.
pub proof fn law_strip_keeps_a_subsequence(
    line: Seq<char>,
    syn: CommentSyntax,
    block: Option<BlockComment>,
)
    ensures
        is_subseq(strip_line(line, syn, block).0, line),
{
    lemma_scan_subseq(line, syn, 0, Quote::Outside, false, block, seq![]);
}

proof fn lemma_clean_lines_shape(
    ls: Seq<Seq<char>>,
    syn: CommentSyntax,
    config: ExtractionConfig,
    block: Option<BlockComment>,
)
    requires
        forall|k: int| 0 <= k < ls.len() ==> !(#[trigger] ls[k]).contains('\n'),
    ensures
        forall|k: int|
            0 <= k < clean_lines(ls, syn, config, block).len() ==> {
                let l = #[trigger] clean_lines(ls, syn, config, block)[k];
                &&& !l.contains('\n')
                &&& config.remove_comments && l.len() > 0 ==> !is_ws(l.last())
            },
    decreases ls.len(),
{
    if ls.len() > 0 {
        let (line, after) = clean_line(ls[0], syn, config, block);
        let rest_in = ls.drop_first();
        assert forall|k: int| 0 <= k < rest_in.len() implies !(#[trigger] rest_in[k]).contains('\n') by {
            assert(rest_in[k] == ls[k + 1]);
        }
        lemma_clean_lines_shape(rest_in, syn, config, after);
        let rest = clean_lines(rest_in, syn, config, after);
        assert(!ls[0].contains('\n'));
        assert(!line.contains('\n') && (config.remove_comments && line.len() > 0 ==> !is_ws(
            line.last(),
        ))) by {
            if config.remove_comments {
                let kept = strip_line(ls[0], syn, block).0;
                law_strip_keeps_a_subsequence(ls[0], syn, block);
                lemma_subseq_lacks(kept, ls[0], '\n');
                lemma_trim_end(kept);
                assert(line == trim_end(kept));
                if line.contains('\n') {
                    let k = choose|k: int| 0 <= k < line.len() && line[k] == '\n';
                    assert(kept[k] == '\n');
                }
                if line.len() > 0 {
                    assert(line.last() == kept[line.len() - 1]);
                }
            }
        }
        let all = clean_lines(ls, syn, config, block);
        assert forall|k: int| 0 <= k < all.len() implies {
            let l = #[trigger] all[k];
            &&& !l.contains('\n')
            &&& config.remove_comments && l.len() > 0 ==> !is_ws(l.last())
        } by {
            if config.compact_lines && is_blank(line) {
                assert(all == rest);
            } else {
                assert(all == seq![line] + rest);
                if k > 0 {
                    assert(all[k] == rest[k - 1]);
                }
            }
        }
    }
}

/// The extracted lines of a file: its cleaned lines that are not blank.
pub open spec fn cleaned_lines(raw: Seq<char>, ext: Seq<char>, config: ExtractionConfig) -> Seq<
    Seq<char>,
> {
    non_blank(spec_clean(raw, ext, config))
}

/// The shape of the text that cleaning extracts: no more lines than the file
/// has; cut at its newlines it gives back exactly those lines (and it is
/// empty when there are none); no line is blank; and when comments are
/// removed no line ends in whitespace.
pub proof fn law_cleaned_content_shape(raw: Seq<char>, ext: Seq<char>, config: ExtractionConfig)
    ensures
        cleaned_lines(raw, ext, config).len() <= spec_lines(raw).len(),
        cleaned_lines(raw, ext, config).len() == 0 ==> join_lines(
            cleaned_lines(raw, ext, config),
        ).len() == 0,
        cleaned_lines(raw, ext, config).len() > 0 ==> newline_pieces(
            join_lines(cleaned_lines(raw, ext, config)),
        ) == cleaned_lines(raw, ext, config),
        forall|k: int|
            0 <= k < cleaned_lines(raw, ext, config).len() ==> !is_blank(
                #[trigger] cleaned_lines(raw, ext, config)[k],
            ),
        config.remove_comments ==> forall|k: int|
            0 <= k < cleaned_lines(raw, ext, config).len() ==> !is_ws(
                (#[trigger] cleaned_lines(raw, ext, config)[k]).last(),
            ),
{
    let ls = spec_lines(raw);
    let syn = syntax_of(normalize_ext(ext));
    let cl = spec_clean(raw, ext, config);
    let kept = cleaned_lines(raw, ext, config);
    law_cleaning_never_adds_lines(raw, ext, config);
    lemma_non_blank_props(cl);
    lemma_non_blank_members(cl);
    lemma_lines_lack_newline(raw, seq![]);
    lemma_clean_lines_shape(ls, syn, config, None);
    assert forall|k: int| 0 <= k < kept.len() implies !(#[trigger] kept[k]).contains('\n') && (
    config.remove_comments ==> !is_ws(kept[k].last())) by {
        let j = choose|j: int| 0 <= j < cl.len() && kept[k] == cl[j];
        assert(!is_blank(kept[k]));
        assert(kept[k].len() > 0) by {
            if kept[k].len() == 0 {
                assert(is_blank(kept[k]));
            }
        }
        assert(cl[j] == clean_lines(ls, syn, config, None)[j]);
    }
    if kept.len() > 0 {
        lemma_pieces_of_join(kept);
    }
}

/// The comment forms of each language the tool knows, named extension by
/// extension: the C family (and Kotlin, Swift, Go, ...) has `//` and `/* */`;
/// CSS `/* */`, SCSS and Less both; SQL `--` and `/* */`; Vue `//`, `/* */`,
/// `<!-- -->` and template strings; HTML and XML `<!-- -->`; Python `#` and
/// docstrings; shell and Ruby `#`; PowerShell `#` and `<# #>`; JavaScript
/// and TypeScript template strings.
pub proof fn law_comment_forms_by_extension()
    ensures
        syntax_of("c"@).slash_line && syntax_of("c"@).slash_block,
        syntax_of("cpp"@).slash_line && syntax_of("cpp"@).slash_block,
        syntax_of("cc"@).slash_line && syntax_of("cc"@).slash_block,
        syntax_of("h"@).slash_line && syntax_of("h"@).slash_block,
        syntax_of("hpp"@).slash_line && syntax_of("hpp"@).slash_block,
        syntax_of("cs"@).slash_line && syntax_of("cs"@).slash_block,
        syntax_of("java"@).slash_line && syntax_of("java"@).slash_block,
        syntax_of("js"@).slash_line && syntax_of("js"@).slash_block,
        syntax_of("jsx"@).slash_line && syntax_of("jsx"@).slash_block,
        syntax_of("ts"@).slash_line && syntax_of("ts"@).slash_block,
        syntax_of("tsx"@).slash_line && syntax_of("tsx"@).slash_block,
        syntax_of("rs"@).slash_line && syntax_of("rs"@).slash_block,
        syntax_of("go"@).slash_line && syntax_of("go"@).slash_block,
        syntax_of("php"@).slash_line && syntax_of("php"@).slash_block,
        syntax_of("swift"@).slash_line && syntax_of("swift"@).slash_block,
        syntax_of("m"@).slash_line && syntax_of("m"@).slash_block,
        syntax_of("mm"@).slash_line && syntax_of("mm"@).slash_block,
        syntax_of("kt"@).slash_line && syntax_of("kt"@).slash_block,
        syntax_of("scala"@).slash_line && syntax_of("scala"@).slash_block,
        syntax_of("dart"@).slash_line && syntax_of("dart"@).slash_block,
        syntax_of("fs"@).slash_line && syntax_of("fs"@).slash_block,
        syntax_of("vb"@).slash_line && syntax_of("vb"@).slash_block,
        syntax_of("css"@).slash_block,
        syntax_of("scss"@).slash_line && syntax_of("scss"@).slash_block,
        syntax_of("less"@).slash_line && syntax_of("less"@).slash_block,
        syntax_of("sql"@).sql_line && syntax_of("sql"@).slash_block,
        syntax_of("vue"@).slash_line && syntax_of("vue"@).slash_block && syntax_of("vue"@).html_block && syntax_of("vue"@).backtick_string,
        syntax_of("html"@).html_block && syntax_of("htm"@).html_block && syntax_of("xml"@).html_block && syntax_of("svelte"@).html_block,
        syntax_of("py"@).hash_line && syntax_of("py"@).python_triple,
        syntax_of("sh"@).hash_line && syntax_of("rb"@).hash_line,
        syntax_of("ps1"@).hash_line && syntax_of("ps1"@).powershell_block,
        syntax_of("js"@).backtick_string && syntax_of("jsx"@).backtick_string && syntax_of("ts"@).backtick_string && syntax_of("tsx"@).backtick_string,
{
}

/// The characters of the extension names of the syntax table.
proof fn lemma_extension_names()
    ensures
        "c"@[0] == 'c' && "c"@.len() == 1,
        "cpp"@[0] == 'c' && "cpp"@[1] == 'p' && "cpp"@[2] == 'p' && "cpp"@.len() == 3,
        "cc"@[0] == 'c' && "cc"@[1] == 'c' && "cc"@.len() == 2,
        "h"@[0] == 'h' && "h"@.len() == 1,
        "hpp"@[0] == 'h' && "hpp"@[1] == 'p' && "hpp"@[2] == 'p' && "hpp"@.len() == 3,
        "cs"@[0] == 'c' && "cs"@[1] == 's' && "cs"@.len() == 2,
        "java"@[0] == 'j' && "java"@[1] == 'a' && "java"@[2] == 'v' && "java"@[3] == 'a' && "java"@.len() == 4,
        "js"@[0] == 'j' && "js"@[1] == 's' && "js"@.len() == 2,
        "jsx"@[0] == 'j' && "jsx"@[1] == 's' && "jsx"@[2] == 'x' && "jsx"@.len() == 3,
        "ts"@[0] == 't' && "ts"@[1] == 's' && "ts"@.len() == 2,
        "tsx"@[0] == 't' && "tsx"@[1] == 's' && "tsx"@[2] == 'x' && "tsx"@.len() == 3,
        "rs"@[0] == 'r' && "rs"@[1] == 's' && "rs"@.len() == 2,
        "go"@[0] == 'g' && "go"@[1] == 'o' && "go"@.len() == 2,
        "php"@[0] == 'p' && "php"@[1] == 'h' && "php"@[2] == 'p' && "php"@.len() == 3,
        "swift"@[0] == 's' && "swift"@[1] == 'w' && "swift"@[2] == 'i' && "swift"@[3] == 'f' && "swift"@[4] == 't' && "swift"@.len() == 5,
        "m"@[0] == 'm' && "m"@.len() == 1,
        "mm"@[0] == 'm' && "mm"@[1] == 'm' && "mm"@.len() == 2,
        "kt"@[0] == 'k' && "kt"@[1] == 't' && "kt"@.len() == 2,
        "scala"@[0] == 's' && "scala"@[1] == 'c' && "scala"@[2] == 'a' && "scala"@[3] == 'l' && "scala"@[4] == 'a' && "scala"@.len() == 5,
        "dart"@[0] == 'd' && "dart"@[1] == 'a' && "dart"@[2] == 'r' && "dart"@[3] == 't' && "dart"@.len() == 4,
        "fs"@[0] == 'f' && "fs"@[1] == 's' && "fs"@.len() == 2,
        "vb"@[0] == 'v' && "vb"@[1] == 'b' && "vb"@.len() == 2,
        "css"@[0] == 'c' && "css"@[1] == 's' && "css"@[2] == 's' && "css"@.len() == 3,
        "scss"@[0] == 's' && "scss"@[1] == 'c' && "scss"@[2] == 's' && "scss"@[3] == 's' && "scss"@.len() == 4,
        "less"@[0] == 'l' && "less"@[1] == 'e' && "less"@[2] == 's' && "less"@[3] == 's' && "less"@.len() == 4,
        "vue"@[0] == 'v' && "vue"@[1] == 'u' && "vue"@[2] == 'e' && "vue"@.len() == 3,
        "sql"@[0] == 's' && "sql"@[1] == 'q' && "sql"@[2] == 'l' && "sql"@.len() == 3,
        "py"@[0] == 'p' && "py"@[1] == 'y' && "py"@.len() == 2,
        "sh"@[0] == 's' && "sh"@[1] == 'h' && "sh"@.len() == 2,
        "rb"@[0] == 'r' && "rb"@[1] == 'b' && "rb"@.len() == 2,
        "ps1"@[0] == 'p' && "ps1"@[1] == 's' && "ps1"@[2] == '1' && "ps1"@.len() == 3,
        "html"@[0] == 'h' && "html"@[1] == 't' && "html"@[2] == 'm' && "html"@[3] == 'l' && "html"@.len() == 4,
        "htm"@[0] == 'h' && "htm"@[1] == 't' && "htm"@[2] == 'm' && "htm"@.len() == 3,
        "xml"@[0] == 'x' && "xml"@[1] == 'm' && "xml"@[2] == 'l' && "xml"@.len() == 3,
        "svelte"@[0] == 's' && "svelte"@[1] == 'v' && "svelte"@[2] == 'e' && "svelte"@[3] == 'l' && "svelte"@[4] == 't' && "svelte"@[5] == 'e' && "svelte"@.len() == 6,
        "txt"@[0] == 't' && "txt"@[1] == 'x' && "txt"@[2] == 't' && "txt"@.len() == 3,
{
    reveal_strlit("c");
    reveal_strlit("cpp");
    reveal_strlit("cc");
    reveal_strlit("h");
    reveal_strlit("hpp");
    reveal_strlit("cs");
    reveal_strlit("java");
    reveal_strlit("js");
    reveal_strlit("jsx");
    reveal_strlit("ts");
    reveal_strlit("tsx");
    reveal_strlit("rs");
    reveal_strlit("go");
    reveal_strlit("php");
    reveal_strlit("swift");
    reveal_strlit("m");
    reveal_strlit("mm");
    reveal_strlit("kt");
    reveal_strlit("scala");
    reveal_strlit("dart");
    reveal_strlit("fs");
    reveal_strlit("vb");
    reveal_strlit("css");
    reveal_strlit("scss");
    reveal_strlit("less");
    reveal_strlit("vue");
    reveal_strlit("sql");
    reveal_strlit("py");
    reveal_strlit("sh");
    reveal_strlit("rb");
    reveal_strlit("ps1");
    reveal_strlit("html");
    reveal_strlit("htm");
    reveal_strlit("xml");
    reveal_strlit("svelte");
    reveal_strlit("txt");
}

/// C has `//` and `/* */` and nothing else, so `#include` lines are code.
pub proof fn law_syntax_of_c()
    ensures
        syntax_of("c"@) == (CommentSyntax {
            slash_line: true,
            slash_block: true,
            hash_line: false,
            sql_line: false,
            html_block: false,
            python_triple: false,
            powershell_block: false,
            backtick_string: false,
        }),
{
    lemma_extension_names();
}

/// Java has `//` and `/* */` and nothing else.
pub proof fn law_syntax_of_java()
    ensures
        syntax_of("java"@) == (CommentSyntax {
            slash_line: true,
            slash_block: true,
            hash_line: false,
            sql_line: false,
            html_block: false,
            python_triple: false,
            powershell_block: false,
            backtick_string: false,
        }),
{
    lemma_extension_names();
}

/// TypeScript has `//`, `/* */` and template strings.
pub proof fn law_syntax_of_ts()
    ensures
        syntax_of("ts"@) == (CommentSyntax {
            slash_line: true,
            slash_block: true,
            hash_line: false,
            sql_line: false,
            html_block: false,
            python_triple: false,
            powershell_block: false,
            backtick_string: true,
        }),
{
    lemma_extension_names();
}

/// Python has `#` comments and docstrings and nothing else.
pub proof fn law_syntax_of_py()
    ensures
        syntax_of("py"@) == (CommentSyntax {
            slash_line: false,
            slash_block: false,
            hash_line: true,
            sql_line: false,
            html_block: false,
            python_triple: true,
            powershell_block: false,
            backtick_string: false,
        }),
{
    lemma_extension_names();
}

/// SQL has `--` and `/* */`.
pub proof fn law_syntax_of_sql()
    ensures
        syntax_of("sql"@) == (CommentSyntax {
            slash_line: false,
            slash_block: true,
            hash_line: false,
            sql_line: true,
            html_block: false,
            python_triple: false,
            powershell_block: false,
            backtick_string: false,
        }),
{
    lemma_extension_names();
}

/// HTML has `<!-- -->` only.
pub proof fn law_syntax_of_html()
    ensures
        syntax_of("html"@) == (CommentSyntax {
            slash_line: false,
            slash_block: false,
            hash_line: false,
            sql_line: false,
            html_block: true,
            python_triple: false,
            powershell_block: false,
            backtick_string: false,
        }),
{
    lemma_extension_names();
}

/// CSS has `/* */` only.
pub proof fn law_syntax_of_css()
    ensures
        syntax_of("css"@) == (CommentSyntax {
            slash_line: false,
            slash_block: true,
            hash_line: false,
            sql_line: false,
            html_block: false,
            python_triple: false,
            powershell_block: false,
            backtick_string: false,
        }),
{
    lemma_extension_names();
}

/// PowerShell has `#` and `<# #>`.
pub proof fn law_syntax_of_ps1()
    ensures
        syntax_of("ps1"@) == (CommentSyntax {
            slash_line: false,
            slash_block: false,
            hash_line: true,
            sql_line: false,
            html_block: false,
            python_triple: false,
            powershell_block: true,
            backtick_string: false,
        }),
{
    lemma_extension_names();
}

/// Vue has `//`, `/* */`, `<!-- -->` and template strings.
pub proof fn law_syntax_of_vue()
    ensures
        syntax_of("vue"@) == (CommentSyntax {
            slash_line: true,
            slash_block: true,
            hash_line: false,
            sql_line: false,
            html_block: true,
            python_triple: false,
            powershell_block: false,
            backtick_string: true,
        }),
{
    lemma_extension_names();
}

/// An extension the table does not name has no comment syntax.
pub proof fn law_syntax_of_unknown_extension()
    ensures
        syntax_of("txt"@) == no_comments(),
{
    lemma_extension_names();
}

/// Only `#` and triple quotes can start a comment (as in Python).
pub open spec fn hash_and_docstring_only(syn: CommentSyntax) -> bool {
    !syn.slash_line && !syn.slash_block && !syn.sql_line && !syn.html_block && !syn.powershell_block
}

proof fn lemma_scan_keeps_code_line(
    line: Seq<char>,
    syn: CommentSyntax,
    i: int,
    q: Quote,
    esc: bool,
    out: Seq<char>,
)
    requires
        hash_and_docstring_only(syn),
        line.len() > 0,
        !is_ws(line[0]),
        line[0] != '"',
        line[0] != '\'',
        !line.contains('#'),
        0 <= i <= line.len(),
        out == line.take(i),
    ensures
        scan(line, syn, i, q, esc, None, out) == (line, None::<BlockComment>),
    decreases line.len() - i,
{
    if i == line.len() {
        assert(line.take(i) == line);
    } else {
        let ch = line[i];
        let out2 = out.push(ch);
        assert(out2 == line.take(i + 1));
        if i > 0 {
            assert(out[0] == line[0]);
            assert(!all_ws(out));
        }
        assert(opener_at(line, syn, i, out) is None) by {
            if i == 0 {
                assert(!starts_at(line, 0, seq!['"', '"', '"'])) by {
                    if starts_at(line, 0, seq!['"', '"', '"']) {
                        assert(line.subrange(0, 3)[0] == line[0]);
                    }
                }
                assert(!starts_at(line, 0, seq!['\'', '\'', '\''])) by {
                    if starts_at(line, 0, seq!['\'', '\'', '\'']) {
                        assert(line.subrange(0, 3)[0] == line[0]);
                    }
                }
            }
        }
        assert(!line_comment_at(line, syn, i)) by {
            if starts_at(line, i, seq!['#']) {
                assert(line.subrange(i, i + 1)[0] == line[i]);
                assert(line.contains('#'));
            }
        }
        if q != Quote::Outside {
            if esc {
                lemma_scan_keeps_code_line(line, syn, i + 1, q, false, out2);
            } else if ch == '\\' {
                lemma_scan_keeps_code_line(line, syn, i + 1, q, true, out2);
            } else if ch == closing_char(q) {
                lemma_scan_keeps_code_line(line, syn, i + 1, Quote::Outside, false, out2);
            } else {
                lemma_scan_keeps_code_line(line, syn, i + 1, q, false, out2);
            }
        } else if ch == '"' {
            lemma_scan_keeps_code_line(line, syn, i + 1, Quote::Double, false, out2);
        } else if ch == '\'' && closes_from(line, i + 1, false, '\'') {
            lemma_scan_keeps_code_line(line, syn, i + 1, Quote::Single, false, out2);
        } else if syn.backtick_string && ch == '`' {
            lemma_scan_keeps_code_line(line, syn, i + 1, Quote::Backtick, false, out2);
        } else {
            lemma_scan_keeps_code_line(line, syn, i + 1, q, esc, out2);
        }
    }
}

/// Triple quotes open a comment only as the first thing on a line: in a
/// language whose comments are `#` and docstrings (Python), a line that
/// starts with code (not whitespace, not a quote) and holds no `#` is kept
/// whole, whatever triple-quoted strings follow, e.g. `x = """s"""`.
pub proof fn law_triple_quotes_after_code_are_strings(line: Seq<char>, syn: CommentSyntax)
    requires
        hash_and_docstring_only(syn),
        line.len() > 0,
        !is_ws(line[0]),
        line[0] != '"',
        line[0] != '\'',
        !line.contains('#'),
    ensures
        strip_line(line, syn, None) == (line, None::<BlockComment>),
{
    assert(line.take(0) == Seq::<char>::empty());
    lemma_scan_keeps_code_line(line, syn, 0, Quote::Outside, false, seq![]);
}

/// Python's comment syntax is of that kind.
pub proof fn law_python_has_hash_and_docstring_only()
    ensures
        hash_and_docstring_only(syntax_of("py"@)),
{
    law_syntax_of_py();
}

/// A character that can neither open a comment nor start a string.
pub open spec fn is_inert(c: char) -> bool {
    c != '"' && c != '\'' && c != '`' && c != '/' && c != '#' && c != '-' && c != '<'
}

/// Code made of inert characters only.
pub open spec fn inert_code(s: Seq<char>) -> bool {
    forall|t: int| 0 <= t < s.len() ==> is_inert(#[trigger] s[t])
}

proof fn lemma_not_starts_at(line: Seq<char>, i: int, m: Seq<char>)
    requires
        m.len() > 0,
        0 <= i < line.len(),
        line[i] != m[0],
    ensures
        !starts_at(line, i, m),
{
    if starts_at(line, i, m) {
        assert(line.subrange(i, i + m.len())[0] == line[i]);
    }
}

proof fn lemma_scan_inert(
    line: Seq<char>,
    syn: CommentSyntax,
    i: int,
    k: int,
    esc: bool,
    out: Seq<char>,
)
    requires
        0 <= i,
        0 <= k,
        i + k <= line.len(),
        forall|t: int| i <= t < i + k ==> is_inert(#[trigger] line[t]),
    ensures
        scan(line, syn, i, Quote::Outside, esc, None, out) == scan(
            line,
            syn,
            i + k,
            Quote::Outside,
            esc,
            None,
            out + line.subrange(i, i + k),
        ),
    decreases k,
{
    if k == 0 {
        assert(out + line.subrange(i, i) == out);
    } else {
        let ch = line[i];
        assert(is_inert(ch));
        lemma_not_starts_at(line, i, seq!['"', '"', '"']);
        lemma_not_starts_at(line, i, seq!['\'', '\'', '\'']);
        lemma_not_starts_at(line, i, seq!['<', '!', '-', '-']);
        lemma_not_starts_at(line, i, seq!['<', '#']);
        lemma_not_starts_at(line, i, seq!['/', '*']);
        lemma_not_starts_at(line, i, seq!['/', '/']);
        lemma_not_starts_at(line, i, seq!['-', '-']);
        lemma_not_starts_at(line, i, seq!['#']);
        lemma_scan_inert(line, syn, i + 1, k - 1, esc, out.push(ch));
        assert(out.push(ch) + line.subrange(i + 1, i + k) == out + line.subrange(i, i + k));
    }
}

proof fn lemma_scan_in_block(
    line: Seq<char>,
    syn: CommentSyntax,
    i: int,
    k: int,
    q: Quote,
    esc: bool,
    b: BlockComment,
    out: Seq<char>,
)
    requires
        0 <= i,
        0 <= k,
        i + k <= line.len(),
        forall|t: int| i <= t < i + k ==> (#[trigger] line[t]) != block_end(b)[0],
    ensures
        scan(line, syn, i, q, esc, Some(b), out) == scan(line, syn, i + k, q, esc, Some(b), out),
    decreases k,
{
    if k > 0 {
        lemma_not_starts_at(line, i, block_end(b));
        lemma_scan_in_block(line, syn, i + 1, k - 1, q, esc, b, out);
    }
}

proof fn lemma_scan_in_string(
    line: Seq<char>,
    syn: CommentSyntax,
    i: int,
    k: int,
    q: Quote,
    out: Seq<char>,
)
    requires
        q != Quote::Outside,
        0 <= i,
        0 <= k,
        i + k <= line.len(),
        forall|t: int|
            i <= t < i + k ==> (#[trigger] line[t]) != closing_char(q) && line[t] != '\\',
    ensures
        scan(line, syn, i, q, false, None, out) == scan(
            line,
            syn,
            i + k,
            q,
            false,
            None,
            out + line.subrange(i, i + k),
        ),
    decreases k,
{
    if k == 0 {
        assert(out + line.subrange(i, i) == out);
    } else {
        let ch = line[i];
        lemma_scan_in_string(line, syn, i + 1, k - 1, q, out.push(ch));
        assert(out.push(ch) + line.subrange(i + 1, i + k) == out + line.subrange(i, i + k));
    }
}

/// In a language with `//` comments, a `//` after plain code removes itself
/// and the rest of the line, and keeps the code.
pub proof fn law_slash_comment_ends_line(code: Seq<char>, rest: Seq<char>, syn: CommentSyntax)
    requires
        syn.slash_line,
        inert_code(code),
    ensures
        strip_line(code + seq!['/', '/'] + rest, syn, None) == (code, None::<BlockComment>),
{
    let line = code + seq!['/', '/'] + rest;
    let i = code.len() as int;
    assert forall|t: int| 0 <= t < i implies is_inert(#[trigger] line[t]) by {
        assert(line[t] == code[t]);
    }
    lemma_scan_inert(line, syn, 0, i, false, seq![]);
    assert(line.subrange(0, i) == code);
    assert(Seq::<char>::empty() + code == code);
    assert(line[i] == '/' && line[i + 1] == '/');
    lemma_not_starts_at(line, i, seq!['"', '"', '"']);
    lemma_not_starts_at(line, i, seq!['\'', '\'', '\'']);
    lemma_not_starts_at(line, i, seq!['<', '!', '-', '-']);
    lemma_not_starts_at(line, i, seq!['<', '#']);
    assert(!starts_at(line, i, seq!['/', '*'])) by {
        if starts_at(line, i, seq!['/', '*']) {
            assert(line.subrange(i, i + 2)[1] == line[i + 1]);
        }
    }
    assert(line.subrange(i, i + 2) == seq!['/', '/']);
}

/// In a language with `#` comments, a `#` after plain code removes itself and
/// the rest of the line, and keeps the code.
pub proof fn law_hash_comment_ends_line(code: Seq<char>, rest: Seq<char>, syn: CommentSyntax)
    requires
        syn.hash_line,
        inert_code(code),
    ensures
        strip_line(code + seq!['#'] + rest, syn, None) == (code, None::<BlockComment>),
{
    let line = code + seq!['#'] + rest;
    let i = code.len() as int;
    assert forall|t: int| 0 <= t < i implies is_inert(#[trigger] line[t]) by {
        assert(line[t] == code[t]);
    }
    lemma_scan_inert(line, syn, 0, i, false, seq![]);
    assert(line.subrange(0, i) == code);
    assert(Seq::<char>::empty() + code == code);
    assert(line[i] == '#');
    lemma_not_starts_at(line, i, seq!['"', '"', '"']);
    lemma_not_starts_at(line, i, seq!['\'', '\'', '\'']);
    lemma_not_starts_at(line, i, seq!['<', '!', '-', '-']);
    lemma_not_starts_at(line, i, seq!['<', '#']);
    lemma_not_starts_at(line, i, seq!['/', '*']);
    lemma_not_starts_at(line, i, seq!['/', '/']);
    lemma_not_starts_at(line, i, seq!['-', '-']);
    assert(line.subrange(i, i + 1) == seq!['#']);
}

/// In a language with `/* */` comments, a block comment closed on its line is
/// removed and the code around it kept; one left open removes the rest of the
/// line and stays open.
pub proof fn law_slash_block_comment(
    code: Seq<char>,
    comment: Seq<char>,
    code2: Seq<char>,
    syn: CommentSyntax,
)
    requires
        syn.slash_block,
        inert_code(code),
        inert_code(code2),
        !comment.contains('*'),
    ensures
        strip_line(code + seq!['/', '*'] + comment + seq!['*', '/'] + code2, syn, None) == (
            code + code2,
            None::<BlockComment>,
        ),
        strip_line(code + seq!['/', '*'] + comment, syn, None) == (code, Some(BlockComment::SlashStar)),
{
    let i = code.len() as int;
    let c = comment.len() as int;
    let b = BlockComment::SlashStar;
    // Closed on the line.
    let line = code + seq!['/', '*'] + comment + seq!['*', '/'] + code2;
    assert forall|t: int| 0 <= t < i implies is_inert(#[trigger] line[t]) by {
        assert(line[t] == code[t]);
    }
    lemma_scan_inert(line, syn, 0, i, false, seq![]);
    assert(line.subrange(0, i) == code);
    assert(Seq::<char>::empty() + code == code);
    assert(line[i] == '/' && line[i + 1] == '*');
    lemma_not_starts_at(line, i, seq!['"', '"', '"']);
    lemma_not_starts_at(line, i, seq!['\'', '\'', '\'']);
    lemma_not_starts_at(line, i, seq!['<', '!', '-', '-']);
    lemma_not_starts_at(line, i, seq!['<', '#']);
    assert(line.subrange(i, i + 2) == seq!['/', '*']);
    assert forall|t: int| i + 2 <= t < i + 2 + c implies (#[trigger] line[t]) != block_end(b)[0] by {
        assert(line[t] == comment[t - i - 2]);
        if comment[t - i - 2] == '*' {
            assert(comment.contains('*'));
        }
    }
    lemma_scan_in_block(line, syn, i + 2, c, Quote::Outside, false, b, code);
    assert(line.subrange(i + 2 + c, i + 4 + c) == seq!['*', '/']);
    let j = i + 4 + c;
    assert forall|t: int| j <= t < j + code2.len() implies is_inert(#[trigger] line[t]) by {
        assert(line[t] == code2[t - j]);
    }
    lemma_scan_inert(line, syn, j, code2.len() as int, false, code);
    assert(line.subrange(j, j + code2.len()) == code2);
    assert(j + code2.len() == line.len());
    // Left open.
    let line2 = code + seq!['/', '*'] + comment;
    assert forall|t: int| 0 <= t < i implies is_inert(#[trigger] line2[t]) by {
        assert(line2[t] == code[t]);
    }
    lemma_scan_inert(line2, syn, 0, i, false, seq![]);
    assert(line2.subrange(0, i) == code);
    assert(line2[i] == '/' && line2[i + 1] == '*');
    lemma_not_starts_at(line2, i, seq!['"', '"', '"']);
    lemma_not_starts_at(line2, i, seq!['\'', '\'', '\'']);
    lemma_not_starts_at(line2, i, seq!['<', '!', '-', '-']);
    lemma_not_starts_at(line2, i, seq!['<', '#']);
    assert(line2.subrange(i, i + 2) == seq!['/', '*']);
    assert forall|t: int| i + 2 <= t < i + 2 + c implies (#[trigger] line2[t]) != block_end(b)[0] by {
        assert(line2[t] == comment[t - i - 2]);
        if comment[t - i - 2] == '*' {
            assert(comment.contains('*'));
        }
    }
    lemma_scan_in_block(line2, syn, i + 2, c, Quote::Outside, false, b, code);
}

/// Comment markers inside a string literal are text: in a language with `//`
/// comments, a double-quoted string after plain code is kept whole, and a `//`
/// after it still ends the line.
pub proof fn law_string_shields_comment_markers(
    code: Seq<char>,
    text: Seq<char>,
    rest: Seq<char>,
    syn: CommentSyntax,
)
    requires
        syn.slash_line,
        inert_code(code),
        !text.contains('"'),
        !text.contains('\\'),
    ensures
        strip_line(code + seq!['"'] + text + seq!['"', '/', '/'] + rest, syn, None) == (
            code + seq!['"'] + text + seq!['"'],
            None::<BlockComment>,
        ),
{
    let i = code.len() as int;
    let n = text.len() as int;
    let line = code + seq!['"'] + text + seq!['"', '/', '/'] + rest;
    assert forall|t: int| 0 <= t < i implies is_inert(#[trigger] line[t]) by {
        assert(line[t] == code[t]);
    }
    lemma_scan_inert(line, syn, 0, i, false, seq![]);
    assert(line.subrange(0, i) == code);
    assert(Seq::<char>::empty() + code == code);
    assert(line[i] == '"');
    assert(!starts_at(line, i, seq!['"', '"', '"'])) by {
        if starts_at(line, i, seq!['"', '"', '"']) {
            let m = line.subrange(i, i + 3);
            if n == 0 {
                assert(m[2] == line[i + 2]);
                assert(line[i + 2] == '/');
            } else {
                assert(m[1] == line[i + 1]);
                assert(line[i + 1] == text[0]);
                assert(text.contains('"'));
            }
        }
    }
    lemma_not_starts_at(line, i, seq!['\'', '\'', '\'']);
    lemma_not_starts_at(line, i, seq!['<', '!', '-', '-']);
    lemma_not_starts_at(line, i, seq!['<', '#']);
    lemma_not_starts_at(line, i, seq!['/', '*']);
    lemma_not_starts_at(line, i, seq!['/', '/']);
    lemma_not_starts_at(line, i, seq!['-', '-']);
    lemma_not_starts_at(line, i, seq!['#']);
    let out1 = code.push('"');
    assert forall|t: int| i + 1 <= t < i + 1 + n implies (#[trigger] line[t]) != closing_char(
        Quote::Double,
    ) && line[t] != '\\' by {
        assert(line[t] == text[t - i - 1]);
        if text[t - i - 1] == '"' {
            assert(text.contains('"'));
        }
        if text[t - i - 1] == '\\' {
            assert(text.contains('\\'));
        }
    }
    lemma_scan_in_string(line, syn, i + 1, n, Quote::Double, out1);
    assert(line.subrange(i + 1, i + 1 + n) == text);
    let j = i + 1 + n;
    assert(line[j] == '"');
    let out2 = out1 + text;
    assert(out2.push('"') == code + seq!['"'] + text + seq!['"']);
    let k = j + 1;
    assert(line[k] == '/' && line[k + 1] == '/');
    lemma_not_starts_at(line, k, seq!['"', '"', '"']);
    lemma_not_starts_at(line, k, seq!['\'', '\'', '\'']);
    lemma_not_starts_at(line, k, seq!['<', '!', '-', '-']);
    lemma_not_starts_at(line, k, seq!['<', '#']);
    assert(!starts_at(line, k, seq!['/', '*'])) by {
        if starts_at(line, k, seq!['/', '*']) {
            assert(line.subrange(k, k + 2)[1] == line[k + 1]);
        }
    }
    assert(line.subrange(k, k + 2) == seq!['/', '/']);
    assert(line_comment_at(line, syn, k));
    assert(opener_at(line, syn, k, out2.push('"')) is None);
    assert(scan(line, syn, k, Quote::Outside, false, None, out2.push('"')) == (
        out2.push('"'),
        None::<BlockComment>,
    ));
    assert(scan(line, syn, j, Quote::Double, false, None, out2) == scan(
        line,
        syn,
        k,
        Quote::Outside,
        false,
        None,
        out2.push('"'),
    ));
    assert(opener_at(line, syn, i, code) is None);
    assert(!line_comment_at(line, syn, i));
    assert(scan(line, syn, i, Quote::Outside, false, None, code) == scan(
        line,
        syn,
        i + 1,
        Quote::Double,
        false,
        None,
        out1,
    ));
}

} // verus!
