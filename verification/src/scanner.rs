//! Choosing the source files of a project: the extension whitelist, the
//! exclusion patterns, the rules read from `.gitignore`, and the summary of
//! the files found.
use vstd::prelude::*;

use crate::text::{
    append_str, chars_of, copy_string, is_ws, lemma_trim_end, lemma_trim_start, spec_lines,
    split_lines, string_of_chars, trim, trim_start, trim_string, owned,
};

verus! {

// ---------------------------------------------------------------------------
// Results
// ---------------------------------------------------------------------------
/// A source file found by a scan.
#[derive(Clone, Debug)]
pub struct FileInfo {
    pub id: usize,
    pub absolute_path: String,
    pub relative_path: String,
    pub lines: usize,
    pub extension: String,
}

/// How many files of the scan have one extension.
#[derive(Clone, Debug)]
pub struct LanguageCount {
    pub extension: String,
    pub count: usize,
}

/// The outcome of a scan.
#[derive(Clone, Debug)]
pub struct ScanResult {
    pub total_files: usize,
    pub total_original_lines: usize,
    pub language_counts: Vec<LanguageCount>,
    pub gitignore_rules: Vec<String>,
    pub files: Vec<FileInfo>,
}

// ---------------------------------------------------------------------------
// `.gitignore` rules
// ---------------------------------------------------------------------------
/// A trimmed line of `.gitignore` is a rule unless it is empty or a comment.
pub open spec fn is_rule(line: Seq<char>) -> bool {
    line.len() > 0 && line[0] != '#'
}

/// The rules among trimmed lines, in order.
pub open spec fn rules_of(lines: Seq<Seq<char>>) -> Seq<Seq<char>>
    decreases lines.len(),
{
    if lines.len() == 0 {
        seq![]
    } else {
        let t = trim(lines[0]);
        let rest = rules_of(lines.drop_first());
        if is_rule(t) {
            seq![t] + rest
        } else {
            rest
        }
    }
}

/// The rules of a `.gitignore` text: its lines trimmed, without the empty
/// ones and the comments.
pub open spec fn gitignore_rules(content: Seq<char>) -> Seq<Seq<char>> {
    rules_of(spec_lines(content))
}

pub fn gitignore_rules_from_content(content: &str) -> (rules: Vec<String>)
    ensures
        rules.deep_view() == gitignore_rules(content@),
{
    let lines = split_lines(content);
    let ghost ls = lines.deep_view();
    let mut rules: Vec<String> = Vec::new();
    let mut i: usize = 0;
    proof {
        assert(ls.skip(0) == ls);
    }
    while i < lines.len()
        invariant
            ls == lines.deep_view(),
            ls == spec_lines(content@),
            i <= lines.len(),
            gitignore_rules(content@) == rules.deep_view() + rules_of(ls.skip(i as int)),
        decreases lines.len() - i,
    {
        proof {
            assert(ls.skip(i as int).drop_first() == ls.skip(i + 1));
            assert(ls.skip(i as int)[0] == ls[i as int]);
        }
        let t = trim_string(lines[i].as_str());
        let tc = chars_of(t.as_str());
        if tc.len() > 0 && tc[0] != '#' {
            let ghost before = rules.deep_view();
            rules.push(t);
            proof {
                assert(rules.deep_view() == before.push(trim(ls[i as int])));
                assert(before + (seq![trim(ls[i as int])] + rules_of(ls.skip(i + 1)))
                    == rules.deep_view() + rules_of(ls.skip(i + 1)));
            }
        }
        i = i + 1;
    }
    proof {
        assert(ls.skip(i as int) == Seq::<Seq<char>>::empty());
        assert(rules.deep_view() + Seq::<Seq<char>>::empty() == rules.deep_view());
    }
    rules
}

// ---------------------------------------------------------------------------
// Extension whitelist
// ---------------------------------------------------------------------------
/// What `str::to_lowercase` gives for a text (full Unicode lower-case mapping).
pub uninterp spec fn unicode_lowercase(s: Seq<char>) -> Seq<char>;

/// `str::to_lowercase`. Its result is stated only through the name
/// `unicode_lowercase`: the Unicode case tables are not written out here.
#[verifier::external_body]
fn to_lowercase(s: &str) -> (r: String)
    ensures
        r@ == unicode_lowercase(s@),
{
    s.to_lowercase()
}

/// `s` without its dots.
pub open spec fn without_dots(s: Seq<char>) -> Seq<char>
    decreases s.len(),
{
    if s.len() == 0 {
        seq![]
    } else if s[0] == '.' {
        without_dots(s.drop_first())
    } else {
        seq![s[0]] + without_dots(s.drop_first())
    }
}

/// The extensions scanned when none are given.
pub open spec fn default_extensions() -> Seq<Seq<char>> {
    seq![
        "c"@, "cpp"@, "cc"@, "h"@, "hpp"@, "cs"@, "java"@, "js"@, "ts"@, "py"@, "rs"@, "go"@,
        "php"@, "rb"@, "swift"@, "m"@, "mm"@, "kt"@, "scala"@, "sql"@, "sh"@, "bat"@, "ps1"@,
        "html"@, "css"@, "vue"@, "tsx"@, "jsx"@, "dart"@, "fs"@, "vb"@, "asm"@, "s"@, "less"@,
        "scss"@,
    ]
}

/// The extensions a scan accepts: the given ones in lower case without dots,
/// or the default ones when none are given.
pub open spec fn whitelist(extensions: Seq<Seq<char>>) -> Seq<Seq<char>> {
    if extensions.len() == 0 {
        default_extensions()
    } else {
        extensions.map_values(|e: Seq<char>| without_dots(unicode_lowercase(e)))
    }
}

/// `s` with its dots removed.
pub fn remove_dots(s: &str) -> (t: String)
    ensures
        t@ == without_dots(s@),
{
    let v = chars_of(s);
    let mut t = String::new();
    let mut i: usize = 0;
    proof {
        assert(v@.skip(0) == v@);
    }
    while i < v.len()
        invariant
            v@ == s@,
            i <= v.len(),
            without_dots(s@) == t@ + without_dots(v@.skip(i as int)),
        decreases v.len() - i,
    {
        proof {
            assert(v@.skip(i as int).drop_first() == v@.skip(i + 1));
            assert(v@.skip(i as int)[0] == v@[i as int]);
        }
        if v[i] != '.' {
            let ghost before = t@;
            crate::text::push_char(&mut t, v[i]);
            proof {
                assert(before + (seq![v@[i as int]] + without_dots(v@.skip(i + 1))) == t@
                    + without_dots(v@.skip(i + 1)));
            }
        }
        i = i + 1;
    }
    proof {
        assert(v@.skip(i as int) == Seq::<char>::empty());
        assert(t@ + Seq::<char>::empty() == t@);
    }
    t
}

/// The extensions scanned when none are given.
pub fn default_extension_list() -> (v: Vec<String>)
    ensures
        v.deep_view() == default_extensions(),
{
    let v = vec![
        owned("c"), owned("cpp"), owned("cc"), owned("h"), owned("hpp"), owned("cs"),
        owned("java"), owned("js"), owned("ts"), owned("py"), owned("rs"), owned("go"),
        owned("php"), owned("rb"), owned("swift"), owned("m"), owned("mm"), owned("kt"),
        owned("scala"), owned("sql"), owned("sh"), owned("bat"), owned("ps1"), owned("html"),
        owned("css"), owned("vue"), owned("tsx"), owned("jsx"), owned("dart"), owned("fs"),
        owned("vb"), owned("asm"), owned("s"), owned("less"), owned("scss"),
    ];
    proof {
        assert(v.deep_view() =~= default_extensions());
    }
    v
}

/// The extensions a scan accepts.
pub fn extension_whitelist(extensions: &[String]) -> (wl: Vec<String>)
    ensures
        wl.deep_view() == whitelist(extensions@.map_values(|e: String| e@)),
{
    if extensions.len() == 0 {
        return default_extension_list();
    }
    let ghost ev = extensions@.map_values(|e: String| e@);
    let mut wl: Vec<String> = Vec::new();
    let mut i: usize = 0;
    while i < extensions.len()
        invariant
            ev == extensions@.map_values(|e: String| e@),
            i <= extensions.len(),
            wl.deep_view() == ev.take(i as int).map_values(
                |e: Seq<char>| without_dots(unicode_lowercase(e)),
            ),
        decreases extensions.len() - i,
    {
        let lower = to_lowercase(extensions[i].as_str());
        let e = remove_dots(lower.as_str());
        let ghost before = wl.deep_view();
        wl.push(e);
        proof {
            assert(ev[i as int] == extensions@[i as int]@);
            assert(ev.take(i + 1) == ev.take(i as int).push(extensions@[i as int]@));
            assert(wl.deep_view() == before.push(e@));
            assert(wl.deep_view() =~= ev.take(i + 1).map_values(
                |e: Seq<char>| without_dots(unicode_lowercase(e)),
            ));
        }
        i = i + 1;
    }
    proof {
        assert(ev.take(extensions.len() as int) == ev);
    }
    wl
}

// ---------------------------------------------------------------------------
// Exclusion patterns
// ---------------------------------------------------------------------------
/// `regex::Regex`, a compiled regular expression, held opaque.
#[verifier::external_type_specification]
#[verifier::external_body]
pub struct ExRegex(regex::Regex);

/// Whether `regex::Regex::new` accepts a pattern.
pub uninterp spec fn regex_compiles(pattern: Seq<char>) -> bool;

/// Whether the regex compiled from `pattern` matches somewhere in `haystack`
/// (`regex::Regex::is_match`).
pub uninterp spec fn regex_is_match(pattern: Seq<char>, haystack: Seq<char>) -> bool;

/// A compiled exclusion pattern together with the text it was compiled from.
/// Its only constructor is `compile_exclude`, so the regex is always the one
/// compiled from `source`.
pub struct ExcludePattern {
    source: String,
    regex: regex::Regex,
}

impl View for ExcludePattern {
    type V = Seq<char>;

    closed spec fn view(&self) -> Seq<char> {
        self.source@
    }
}

/// `regex::Regex::new`: a compiled pattern exactly when the crate accepts it.
#[verifier::external_body]
fn compile_exclude(pattern: &str) -> (r: Option<ExcludePattern>)
    ensures
        r is Some == regex_compiles(pattern@),
        r matches Some(p) ==> p@ == pattern@,
{
    match regex::Regex::new(pattern) {
        Ok(regex) => Some(ExcludePattern { source: pattern.to_string(), regex }),
        Err(_) => None,
    }
}

/// `regex::Regex::is_match` on the regex compiled from `p@`.
#[verifier::external_body]
fn exclude_matches(p: &ExcludePattern, haystack: &str) -> (b: bool)
    ensures
        b == regex_is_match(p@, haystack@),
{
    p.regex.is_match(haystack)
}

/// The patterns that compile, in order.
pub open spec fn compiled_patterns(patterns: Seq<Seq<char>>) -> Seq<Seq<char>>
    decreases patterns.len(),
{
    if patterns.len() == 0 {
        seq![]
    } else if regex_compiles(patterns[0]) {
        seq![patterns[0]] + compiled_patterns(patterns.drop_first())
    } else {
        compiled_patterns(patterns.drop_first())
    }
}

/// The exclusion patterns that compile; the others are skipped.
pub fn compile_excludes(custom_excludes: &[String]) -> (ps: Vec<ExcludePattern>)
    ensures
        ps@.map_values(|p: ExcludePattern| p@) == compiled_patterns(
            custom_excludes@.map_values(|e: String| e@),
        ),
{
    let ghost ev = custom_excludes@.map_values(|e: String| e@);
    let mut ps: Vec<ExcludePattern> = Vec::new();
    let mut i: usize = 0;
    proof {
        assert(ev.skip(0) == ev);
    }
    while i < custom_excludes.len()
        invariant
            ev == custom_excludes@.map_values(|e: String| e@),
            i <= custom_excludes.len(),
            compiled_patterns(ev) == ps@.map_values(|p: ExcludePattern| p@) + compiled_patterns(
                ev.skip(i as int),
            ),
        decreases custom_excludes.len() - i,
    {
        proof {
            assert(ev.skip(i as int).drop_first() == ev.skip(i + 1));
            assert(ev.skip(i as int)[0] == ev[i as int]);
            assert(ev[i as int] == custom_excludes@[i as int]@);
        }
        match compile_exclude(custom_excludes[i].as_str()) {
            Some(p) => {
                let ghost before = ps@.map_values(|p: ExcludePattern| p@);
                ps.push(p);
                proof {
                    assert(ps@.map_values(|p: ExcludePattern| p@) =~= before.push(ev[i as int]));
                    assert(before + (seq![ev[i as int]] + compiled_patterns(ev.skip(i + 1)))
                        == before.push(ev[i as int]) + compiled_patterns(ev.skip(i + 1)));
                }
            },
            None => {},
        }
        i = i + 1;
    }
    proof {
        assert(ev.skip(i as int) == Seq::<Seq<char>>::empty());
        assert(ps@.map_values(|p: ExcludePattern| p@) + Seq::<Seq<char>>::empty() == ps@.map_values(
            |p: ExcludePattern| p@,
        ));
    }
    ps
}

// ---------------------------------------------------------------------------
// Choosing the files
// ---------------------------------------------------------------------------
/// A file met while walking the project: its full path, its path relative to
/// the root as the platform writes it, and its extension if it has one.
pub struct ScanCandidate {
    pub absolute_path: String,
    pub relative_path: String,
    pub extension: Option<String>,
}

/// A file chosen by the scan: its full path, its relative path with `/` as
/// separator, and its extension in lower case.
#[derive(Clone, Debug)]
pub struct ScanEntry {
    pub absolute_path: String,
    pub relative_path: String,
    pub extension: String,
}

/// A chosen file as the contracts speak of it: (full path, relative path,
/// extension).
pub open spec fn entry_view(e: ScanEntry) -> (Seq<char>, Seq<char>, Seq<char>) {
    (e.absolute_path@, e.relative_path@, e.extension@)
}

/// A path with every backslash turned into a slash.
pub open spec fn slash_path(p: Seq<char>) -> Seq<char> {
    p.map_values(|c: char| if c == '\\' { '/' } else { c })
}

/// Some pattern matches the relative or the full path.
pub open spec fn is_excluded(patterns: Seq<Seq<char>>, relative: Seq<char>, absolute: Seq<char>) -> bool {
    exists|i: int|
        0 <= i < patterns.len() && (regex_is_match(patterns[i], relative) || regex_is_match(
            #[trigger] patterns[i],
            absolute,
        ))
}

/// What the scan keeps of one candidate, given the accepted extensions and the
/// compiled patterns: nothing when it has no extension, when its lower-case
/// extension is not accepted, or when a pattern matches one of its paths.
pub open spec fn choose_candidate(
    c: ScanCandidate,
    wl: Seq<Seq<char>>,
    patterns: Seq<Seq<char>>,
) -> Option<(Seq<char>, Seq<char>, Seq<char>)> {
    match c.extension {
        None => None,
        Some(e) => {
            let ext = unicode_lowercase(e@);
            let rel = slash_path(c.relative_path@);
            if !wl.contains(ext) || is_excluded(patterns, rel, c.absolute_path@) {
                None
            } else {
                Some((c.absolute_path@, rel, ext))
            }
        },
    }
}

/// The files kept from the candidates, in order.
pub open spec fn chosen(
    cands: Seq<ScanCandidate>,
    wl: Seq<Seq<char>>,
    patterns: Seq<Seq<char>>,
) -> Seq<(Seq<char>, Seq<char>, Seq<char>)>
    decreases cands.len(),
{
    if cands.len() == 0 {
        seq![]
    } else {
        let rest = chosen(cands.drop_first(), wl, patterns);
        match choose_candidate(cands[0], wl, patterns) {
            Some(e) => seq![e] + rest,
            None => rest,
        }
    }
}

/// `wl` holds `x`.
fn contains_string(wl: &Vec<String>, x: &String) -> (b: bool)
    ensures
        b == wl.deep_view().contains(x@),
{
    let mut i: usize = 0;
    while i < wl.len()
        invariant
            i <= wl.len(),
            forall|j: int| 0 <= j < i ==> wl.deep_view()[j] != x@,
        decreases wl.len() - i,
    {
        if wl[i] == *x {
            proof {
                assert(wl.deep_view()[i as int] == x@);
            }
            return true;
        }
        i = i + 1;
    }
    false
}

/// `p` with backslashes turned into slashes.
fn to_slash_path(p: &str) -> (q: String)
    ensures
        q@ == slash_path(p@),
{
    let v = chars_of(p);
    let mut w: Vec<char> = Vec::new();
    let mut i: usize = 0;
    while i < v.len()
        invariant
            v@ == p@,
            i <= v.len(),
            w@ == slash_path(v@.take(i as int)),
        decreases v.len() - i,
    {
        let c = v[i];
        w.push(if c == '\\' { '/' } else { c });
        proof {
            assert(v@.take(i + 1) == v@.take(i as int).push(c));
            assert(w@ =~= slash_path(v@.take(i + 1)));
        }
        i = i + 1;
    }
    proof {
        assert(v@.take(v.len() as int) == v@);
    }
    string_of_chars(&w)
}

/// Some compiled pattern matches `relative` or `absolute`.
fn matches_any(patterns: &Vec<ExcludePattern>, relative: &str, absolute: &str) -> (b: bool)
    ensures
        b == is_excluded(patterns@.map_values(|p: ExcludePattern| p@), relative@, absolute@),
{
    let ghost pv = patterns@.map_values(|p: ExcludePattern| p@);
    let mut i: usize = 0;
    while i < patterns.len()
        invariant
            pv == patterns@.map_values(|p: ExcludePattern| p@),
            i <= patterns.len(),
            forall|j: int|
                0 <= j < i ==> !(regex_is_match(pv[j], relative@) || regex_is_match(
                    #[trigger] pv[j],
                    absolute@,
                )),
        decreases patterns.len() - i,
    {
        if exclude_matches(&patterns[i], relative) || exclude_matches(&patterns[i], absolute) {
            proof {
                assert(pv[i as int] == patterns@[i as int]@);
            }
            return true;
        }
        i = i + 1;
    }
    false
}

/// Chooses the files to scan among the candidates: those whose lower-case
/// extension is accepted and whose paths no exclusion pattern matches.
pub fn select_scan_candidates(
    candidates: Vec<ScanCandidate>,
    custom_excludes: &[String],
    extensions: &[String],
) -> (entries: Vec<ScanEntry>)
    ensures
        entries@.map_values(|e: ScanEntry| entry_view(e)) == chosen(
            candidates@,
            whitelist(extensions@.map_values(|e: String| e@)),
            compiled_patterns(custom_excludes@.map_values(|e: String| e@)),
        ),
{
    let wl = extension_whitelist(extensions);
    let patterns = compile_excludes(custom_excludes);
    let ghost wv = wl.deep_view();
    let ghost pv = patterns@.map_values(|p: ExcludePattern| p@);
    let ghost cs = candidates@;
    let mut entries: Vec<ScanEntry> = Vec::new();
    let mut i: usize = 0;
    proof {
        assert(cs.skip(0) == cs);
    }
    while i < candidates.len()
        invariant
            cs == candidates@,
            wv == wl.deep_view(),
            pv == patterns@.map_values(|p: ExcludePattern| p@),
            i <= candidates.len(),
            chosen(cs, wv, pv) == entries@.map_values(|e: ScanEntry| entry_view(e)) + chosen(
                cs.skip(i as int),
                wv,
                pv,
            ),
        decreases candidates.len() - i,
    {
        proof {
            assert(cs.skip(i as int).drop_first() == cs.skip(i + 1));
            assert(cs.skip(i as int)[0] == cs[i as int]);
        }
        let c = &candidates[i];
        match &c.extension {
            None => {},
            Some(e) => {
                let ext = to_lowercase(e.as_str());
                if contains_string(&wl, &ext) {
                    let relative = to_slash_path(c.relative_path.as_str());
                    if !matches_any(&patterns, relative.as_str(), c.absolute_path.as_str()) {
                        let ghost before = entries@.map_values(|e: ScanEntry| entry_view(e));
                        let entry = ScanEntry {
                            absolute_path: copy_string(&c.absolute_path),
                            relative_path: relative,
                            extension: ext,
                        };
                        entries.push(entry);
                        proof {
                            let ev = entry_view(entry);
                            assert(choose_candidate(cs[i as int], wv, pv) == Some(ev));
                            assert(entries@.map_values(|e: ScanEntry| entry_view(e)) =~= before.push(
                                ev,
                            ));
                            assert(before + (seq![ev] + chosen(cs.skip(i + 1), wv, pv))
                                == before.push(ev) + chosen(cs.skip(i + 1), wv, pv));
                        }
                    }
                }
            },
        }
        i = i + 1;
    }
    proof {
        assert(cs.skip(i as int) == Seq::<ScanCandidate>::empty());
        assert(entries@.map_values(|e: ScanEntry| entry_view(e)) + Seq::<
            (Seq<char>, Seq<char>, Seq<char>),
        >::empty() == entries@.map_values(|e: ScanEntry| entry_view(e)));
    }
    entries
}

// ---------------------------------------------------------------------------
// Summary
// ---------------------------------------------------------------------------
/// The sum of a list of counts.
pub open spec fn total(xs: Seq<usize>) -> int
    decreases xs.len(),
{
    if xs.len() == 0 {
        0
    } else {
        total(xs.drop_last()) + xs.last()
    }
}

/// How many of `exts` are `e`.
pub open spec fn occurrences(exts: Seq<Seq<char>>, e: Seq<char>) -> int
    decreases exts.len(),
{
    if exts.len() == 0 {
        0
    } else {
        occurrences(exts.drop_last(), e) + if exts.last() == e {
            1int
        } else {
            0int
        }
    }
}

/// The extensions of chosen files.
pub open spec fn extensions_of(entries: Seq<ScanEntry>) -> Seq<Seq<char>> {
    entries.map_values(|e: ScanEntry| e.extension@)
}

/// `counts` counts the extensions `exts`: one entry per extension that occurs,
/// none twice, each with its number of occurrences.
pub open spec fn counts_extensions(counts: Seq<LanguageCount>, exts: Seq<Seq<char>>) -> bool {
    &&& forall|j: int, k: int|
        0 <= j < k < counts.len() ==> (#[trigger] counts[j]).extension@ != (
        #[trigger] counts[k]).extension@
    &&& forall|j: int|
        0 <= j < counts.len() ==> (#[trigger] counts[j]).count == occurrences(
            exts,
            counts[j].extension@,
        ) && counts[j].count >= 1
    &&& covers(counts, exts)
}

/// Every extension of `exts` has an entry in `counts`.
pub open spec fn covers(counts: Seq<LanguageCount>, exts: Seq<Seq<char>>) -> bool {
    forall|t: int|
        0 <= t < exts.len() ==> exists|j: int|
            0 <= j < counts.len() && (#[trigger] counts[j]).extension@ == #[trigger] exts[t]
}

/// The sum of the counts of `counts`.
pub open spec fn counted(counts: Seq<LanguageCount>) -> int
    decreases counts.len(),
{
    if counts.len() == 0 {
        0
    } else {
        counted(counts.drop_last()) + counts.last().count
    }
}

proof fn lemma_counted_update(counts: Seq<LanguageCount>, j: int, c: LanguageCount)
    requires
        0 <= j < counts.len(),
    ensures
        counted(counts.update(j, c)) == counted(counts) - counts[j].count + c.count,
    decreases counts.len(),
{
    let u = counts.update(j, c);
    if j == counts.len() - 1 {
        assert(u.drop_last() == counts.drop_last());
    } else {
        lemma_counted_update(counts.drop_last(), j, c);
        assert(u.drop_last() == counts.drop_last().update(j, c));
    }
}

/// A prefix of a list of counts sums to no more than the whole list.
pub proof fn lemma_total_prefix(xs: Seq<usize>, i: int)
    requires
        0 <= i <= xs.len(),
    ensures
        0 <= total(xs.take(i)) <= total(xs),
    decreases xs.len(),
{
    if i == xs.len() {
        assert(xs.take(i) == xs);
        lemma_total_nonneg(xs);
    } else {
        lemma_total_prefix(xs.drop_last(), i);
        assert(xs.drop_last().take(i) == xs.take(i));
    }
}

proof fn lemma_total_nonneg(xs: Seq<usize>)
    ensures
        total(xs) >= 0,
    decreases xs.len(),
{
    if xs.len() > 0 {
        lemma_total_nonneg(xs.drop_last());
    }
}

/// A chosen file and the number of its lines.
pub struct CountedEntry {
    pub entry: ScanEntry,
    pub lines: usize,
}

/// The line counts of counted files.
pub open spec fn line_counts_of(cs: Seq<CountedEntry>) -> Seq<usize> {
    cs.map_values(|c: CountedEntry| c.lines)
}

/// The line counts of the files of a scan.
pub open spec fn file_line_counts(files: Seq<FileInfo>) -> Seq<usize> {
    files.map_values(|f: FileInfo| f.lines)
}

/// The extensions of the files of a scan.
pub open spec fn file_extensions(files: Seq<FileInfo>) -> Seq<Seq<char>> {
    files.map_values(|f: FileInfo| f.extension@)
}

/// The summary of a scan of the chosen files, each with its line count: the
/// files numbered in order, the total of their lines, and the number of files
/// of each extension. The line total must fit in a `usize`.
pub fn summarize_scan(counted_files: Vec<CountedEntry>, gitignore_rules: Vec<String>) -> (r:
    ScanResult)
    requires
        total(line_counts_of(counted_files@)) <= usize::MAX,
    ensures
        r.total_files == r.files.len() == counted_files.len(),
        forall|i: int|
            0 <= i < counted_files.len() ==> {
                &&& (#[trigger] r.files@[i]).id == i
                &&& r.files@[i].absolute_path@ == counted_files@[i].entry.absolute_path@
                &&& r.files@[i].relative_path@ == counted_files@[i].entry.relative_path@
                &&& r.files@[i].lines == counted_files@[i].lines
                &&& r.files@[i].extension@ == counted_files@[i].entry.extension@
            },
        r.total_original_lines == total(file_line_counts(r.files@)),
        counts_extensions(r.language_counts@, file_extensions(r.files@)),
        counted(r.language_counts@) == r.total_files,
        r.gitignore_rules.deep_view() == gitignore_rules.deep_view(),
{
    let ghost line_counts = line_counts_of(counted_files@);
    let ghost ents = counted_files@.map_values(|c: CountedEntry| c.entry);
    let ghost exts = extensions_of(ents);
    let mut files: Vec<FileInfo> = Vec::new();
    let mut counts: Vec<LanguageCount> = Vec::new();
    let mut total_lines: usize = 0;
    let mut i: usize = 0;
    while i < counted_files.len()
        invariant
            exts == extensions_of(ents),
            counted_files.len() == line_counts.len(),
            ents.len() == counted_files.len(),
            line_counts == line_counts_of(counted_files@),
            ents == counted_files@.map_values(|c: CountedEntry| c.entry),
            total(line_counts) <= usize::MAX,
            i <= counted_files.len(),
            total_lines == total(line_counts.take(i as int)),
            files.len() == i,
            forall|t: int|
                0 <= t < i ==> {
                    &&& (#[trigger] files@[t]).id == t
                    &&& files@[t].absolute_path@ == ents[t].absolute_path@
                    &&& files@[t].relative_path@ == ents[t].relative_path@
                    &&& files@[t].lines == line_counts[t]
                    &&& files@[t].extension@ == ents[t].extension@
                },
            counts_extensions(counts@, exts.take(i as int)),
            forall|j: int| 0 <= j < counts.len() ==> (#[trigger] counts@[j]).count <= i,
            counted(counts@) == i,
        decreases counted_files.len() - i,
    {
        let e = &counted_files[i].entry;
        let lines = counted_files[i].lines;
        proof {
            lemma_total_prefix(line_counts, i + 1);
            assert(line_counts.take(i + 1).drop_last() == line_counts.take(i as int));
        }
        total_lines = total_lines + lines;
        let ghost prev_files = files@;
        files.push(
            FileInfo {
                id: i,
                absolute_path: copy_string(&e.absolute_path),
                relative_path: copy_string(&e.relative_path),
                lines,
                extension: copy_string(&e.extension),
            },
        );
        proof {
            assert forall|t: int| 0 <= t < i + 1 implies {
                &&& (#[trigger] files@[t]).id == t
                &&& files@[t].absolute_path@ == ents[t].absolute_path@
                &&& files@[t].relative_path@ == ents[t].relative_path@
                &&& files@[t].lines == line_counts[t]
                &&& files@[t].extension@ == ents[t].extension@
            } by {
                if t < i {
                    assert(files@[t] == prev_files[t]);
                }
            }
        }
        // Count the extension.
        let ghost before = exts.take(i as int);
        let ghost after = exts.take(i + 1);
        proof {
            assert(after.drop_last() == before);
            assert(after.last() == e.extension@);
        }
        let mut j: usize = 0;
        let mut found = false;
        while j < counts.len() && !found
            invariant
                j <= counts.len(),
                counts_extensions(counts@, before),
                forall|k: int| 0 <= k < counts.len() ==> (#[trigger] counts@[k]).count <= i,
                found ==> j < counts.len() && counts@[j as int].extension@ == e.extension@,
                !found ==> forall|k: int|
                    0 <= k < j ==> (#[trigger] counts@[k]).extension@ != e.extension@,
            decreases counts.len() - j, if found { 0int } else { 1int },
        {
            if counts[j].extension == e.extension {
                found = true;
            } else {
                j = j + 1;
            }
        }
        let ghost prev = counts@;
        if found {
            let c = LanguageCount { extension: copy_string(&counts[j].extension), count: counts[j].count + 1 };
            counts.set(j, c);
            proof {
                lemma_counted_update(prev, j as int, c);
                assert(counts@ == prev.update(j as int, c));
                assert forall|k: int| 0 <= k < counts.len() implies (#[trigger] counts@[k]).count
                    == occurrences(after, counts@[k].extension@) && counts@[k].count >= 1 by {
                    if k != j {
                        assert(counts@[k] == prev[k]);
                    }
                }
                assert forall|t: int| 0 <= t < after.len() implies exists|k: int|
                    0 <= k < counts.len() && (#[trigger] counts@[k]).extension@ == #[trigger] after[t] by {
                    if t < i {
                        assert(after[t] == before[t]);
                        let k = choose|k: int| 0 <= k < prev.len() && (#[trigger] prev[k]).extension@ == before[t];
                        assert(counts@[k].extension@ == prev[k].extension@);
                    } else {
                        assert(counts@[j as int].extension@ == after[t]);
                    }
                }
                assert forall|a: int, b: int| 0 <= a < b < counts.len() implies (#[trigger] counts@[a]).extension@
                    != (#[trigger] counts@[b]).extension@ by {
                    assert(counts@[a].extension@ == prev[a].extension@);
                    assert(counts@[b].extension@ == prev[b].extension@);
                }
            }
        } else {
            proof {
                assert(counts_extensions(prev, before));
                lemma_occurrences_absent(before, e.extension@, prev);
            }
            counts.push(LanguageCount { extension: copy_string(&e.extension), count: 1 });
            proof {
                assert(counts@.drop_last() == prev);
                assert forall|k: int| 0 <= k < counts.len() implies (#[trigger] counts@[k]).count
                    == occurrences(after, counts@[k].extension@) && counts@[k].count >= 1 by {
                    if k < prev.len() {
                        assert(counts@[k] == prev[k]);
                    } else {
                        assert(occurrences(before, e.extension@) == 0);
                    }
                }
                assert forall|t: int| 0 <= t < after.len() implies exists|k: int|
                    0 <= k < counts.len() && (#[trigger] counts@[k]).extension@ == #[trigger] after[t] by {
                    if t < i {
                        assert(after[t] == before[t]);
                        let k = choose|k: int| 0 <= k < prev.len() && (#[trigger] prev[k]).extension@ == before[t];
                        assert(counts@[k] == prev[k]);
                    } else {
                        assert(counts@[prev.len() as int].extension@ == after[t]);
                    }
                }
                assert forall|a: int, b: int| 0 <= a < b < counts.len() implies (#[trigger] counts@[a]).extension@
                    != (#[trigger] counts@[b]).extension@ by {
                    assert(counts@[a] == prev[a]);
                    if b < prev.len() {
                        assert(counts@[b] == prev[b]);
                    }
                }
            }
        }
        i = i + 1;
    }
    proof {
        assert(line_counts.take(i as int) == line_counts);
        assert(exts.take(i as int) == exts);
        assert(file_line_counts(files@) =~= line_counts);
        assert(file_extensions(files@) =~= exts);
    }
    ScanResult {
        total_files: counted_files.len(),
        total_original_lines: total_lines,
        language_counts: counts,
        gitignore_rules,
        files,
    }
}

/// An extension that no count names does not occur.
proof fn lemma_occurrences_absent(exts: Seq<Seq<char>>, e: Seq<char>, counts: Seq<LanguageCount>)
    requires
        covers(counts, exts),
        forall|k: int| 0 <= k < counts.len() ==> (#[trigger] counts[k]).extension@ != e,
    ensures
        occurrences(exts, e) == 0,
    decreases exts.len(),
{
    if exts.len() > 0 {
        let t = exts.len() - 1;
        let j = choose|j: int| 0 <= j < counts.len() && (#[trigger] counts[j]).extension@ == exts[t];
        assert forall|t2: int| 0 <= t2 < exts.drop_last().len() implies exists|j: int|
            0 <= j < counts.len() && (#[trigger] counts[j]).extension@ == #[trigger] exts.drop_last()[t2] by {
            assert(exts.drop_last()[t2] == exts[t2]);
        }
        assert(covers(counts, exts.drop_last()));
        lemma_occurrences_absent(exts.drop_last(), e, counts);
    }
}

/// Every `.gitignore` rule is a non-empty trimmed line that is not a comment.
pub proof fn law_gitignore_rules_are_trimmed(content: Seq<char>, i: int)
    requires
        0 <= i < gitignore_rules(content).len(),
    ensures
        gitignore_rules(content)[i].len() > 0,
        gitignore_rules(content)[i][0] != '#',
        !is_ws(gitignore_rules(content)[i][0]),
        !is_ws(gitignore_rules(content)[i].last()),
{
    lemma_rules_trimmed(spec_lines(content), i);
}

proof fn lemma_rules_trimmed(ls: Seq<Seq<char>>, i: int)
    requires
        0 <= i < rules_of(ls).len(),
    ensures
        is_rule(rules_of(ls)[i]),
        !is_ws(rules_of(ls)[i][0]),
        !is_ws(rules_of(ls)[i].last()),
    decreases ls.len(),
{
    let t = trim(ls[0]);
    let rest = rules_of(ls.drop_first());
    if is_rule(t) && i == 0 {
        let s0 = trim_start(ls[0]);
        lemma_trim_start(ls[0]);
        lemma_trim_end(s0);
        assert(t[0] == s0[0]);
        assert(s0[0] == ls[0][ls[0].len() - s0.len()]);
    } else if is_rule(t) {
        assert(rules_of(ls)[i] == rest[i - 1]);
        lemma_rules_trimmed(ls.drop_first(), i - 1);
    } else {
        lemma_rules_trimmed(ls.drop_first(), i);
    }
}

/// The default whitelist, named extension by extension: these 35 and no
/// others.
pub proof fn law_default_extensions_by_name()
    ensures
        default_extensions().len() == 35,
        default_extensions().contains("c"@),
        default_extensions().contains("cpp"@),
        default_extensions().contains("cc"@),
        default_extensions().contains("h"@),
        default_extensions().contains("hpp"@),
        default_extensions().contains("cs"@),
        default_extensions().contains("java"@),
        default_extensions().contains("js"@),
        default_extensions().contains("ts"@),
        default_extensions().contains("py"@),
        default_extensions().contains("rs"@),
        default_extensions().contains("go"@),
        default_extensions().contains("php"@),
        default_extensions().contains("rb"@),
        default_extensions().contains("swift"@),
        default_extensions().contains("m"@),
        default_extensions().contains("mm"@),
        default_extensions().contains("kt"@),
        default_extensions().contains("scala"@),
        default_extensions().contains("sql"@),
        default_extensions().contains("sh"@),
        default_extensions().contains("bat"@),
        default_extensions().contains("ps1"@),
        default_extensions().contains("html"@),
        default_extensions().contains("css"@),
        default_extensions().contains("vue"@),
        default_extensions().contains("tsx"@),
        default_extensions().contains("jsx"@),
        default_extensions().contains("dart"@),
        default_extensions().contains("fs"@),
        default_extensions().contains("vb"@),
        default_extensions().contains("asm"@),
        default_extensions().contains("s"@),
        default_extensions().contains("less"@),
        default_extensions().contains("scss"@),
        whitelist(seq![]) == default_extensions(),
{
    let d = default_extensions();
    assert(d[0] == "c"@);
    assert(d[1] == "cpp"@);
    assert(d[2] == "cc"@);
    assert(d[3] == "h"@);
    assert(d[4] == "hpp"@);
    assert(d[5] == "cs"@);
    assert(d[6] == "java"@);
    assert(d[7] == "js"@);
    assert(d[8] == "ts"@);
    assert(d[9] == "py"@);
    assert(d[10] == "rs"@);
    assert(d[11] == "go"@);
    assert(d[12] == "php"@);
    assert(d[13] == "rb"@);
    assert(d[14] == "swift"@);
    assert(d[15] == "m"@);
    assert(d[16] == "mm"@);
    assert(d[17] == "kt"@);
    assert(d[18] == "scala"@);
    assert(d[19] == "sql"@);
    assert(d[20] == "sh"@);
    assert(d[21] == "bat"@);
    assert(d[22] == "ps1"@);
    assert(d[23] == "html"@);
    assert(d[24] == "css"@);
    assert(d[25] == "vue"@);
    assert(d[26] == "tsx"@);
    assert(d[27] == "jsx"@);
    assert(d[28] == "dart"@);
    assert(d[29] == "fs"@);
    assert(d[30] == "vb"@);
    assert(d[31] == "asm"@);
    assert(d[32] == "s"@);
    assert(d[33] == "less"@);
    assert(d[34] == "scss"@);
}

/// The reported rules are exactly the lines of the `.gitignore` text,
/// trimmed, that are not empty and do not start with `#`, in their order.
pub proof fn law_gitignore_rules_complete(content: Seq<char>)
    ensures
        gitignore_rules(content) == spec_lines(content).map_values(|l: Seq<char>| trim(l)).filter(
            |t: Seq<char>| t.len() > 0 && t[0] != '#',
        ),
{
    lemma_rules_filter(spec_lines(content));
}

proof fn lemma_rules_filter(ls: Seq<Seq<char>>)
    ensures
        rules_of(ls) == ls.map_values(|l: Seq<char>| trim(l)).filter(
            |t: Seq<char>| t.len() > 0 && t[0] != '#',
        ),
    decreases ls.len(),
{
    let pred = |t: Seq<char>| t.len() > 0 && t[0] != '#';
    let f = |l: Seq<char>| trim(l);
    if ls.len() == 0 {
        assert(ls.map_values(f) == Seq::<Seq<char>>::empty());
    } else {
        let rest = ls.drop_first();
        lemma_rules_filter(rest);
        let t = trim(ls[0]);
        assert(ls.map_values(f) == seq![t] + rest.map_values(f));
        Seq::filter_distributes_over_add(seq![t], rest.map_values(f), pred);
        let one = seq![t];
        reveal_with_fuel(Seq::filter, 2);
        assert(one.drop_last() == Seq::<Seq<char>>::empty());
        assert(Seq::<Seq<char>>::empty().filter(pred) == Seq::<Seq<char>>::empty());
        if pred(t) {
            assert(one.filter(pred) == seq![t]);
        } else {
            assert(one.filter(pred) == Seq::<Seq<char>>::empty());
            assert(Seq::<Seq<char>>::empty() + rest.map_values(f).filter(pred) == rest.map_values(
                f,
            ).filter(pred));
        }
    }
}

} // verus!
