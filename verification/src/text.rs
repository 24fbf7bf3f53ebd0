//! Character-level text primitives: whitespace, trimming, line splitting and
//! joining, each with the mathematical meaning it has on `Seq<char>`.
use vstd::prelude::*;

verus! {

// ---------------------------------------------------------------------------
// Whitespace
// ---------------------------------------------------------------------------
/// The Unicode `White_Space` property, the set that `char::is_whitespace` tests.
pub open spec fn is_ws(c: char) -> bool {
    let u = c as u32;
    ||| 0x09 <= u <= 0x0D
    ||| u == 0x20
    ||| u == 0x85
    ||| u == 0xA0
    ||| u == 0x1680
    ||| 0x2000 <= u <= 0x200A
    ||| u == 0x2028
    ||| u == 0x2029
    ||| u == 0x202F
    ||| u == 0x205F
    ||| u == 0x3000
}

/// Every character of `s` is whitespace (so `s` trims to nothing).
pub open spec fn all_ws(s: Seq<char>) -> bool {
    forall|i: int| 0 <= i < s.len() ==> is_ws(#[trigger] s[i])
}

/// A line is blank when nothing but whitespace is in it.
pub open spec fn is_blank(s: Seq<char>) -> bool {
    all_ws(s)
}

pub fn is_whitespace(c: char) -> (b: bool)
    ensures
        b == is_ws(c),
{
    let u = c as u32;
    (0x09 <= u && u <= 0x0D) || u == 0x20 || u == 0x85 || u == 0xA0 || u == 0x1680 || (0x2000 <= u
        && u <= 0x200A) || u == 0x2028 || u == 0x2029 || u == 0x202F || u == 0x205F || u == 0x3000
}

// ---------------------------------------------------------------------------
// Trimming
// ---------------------------------------------------------------------------
/// `s` without its trailing whitespace.
pub open spec fn trim_end(s: Seq<char>) -> Seq<char>
    decreases s.len(),
{
    if s.len() > 0 && is_ws(s.last()) {
        trim_end(s.drop_last())
    } else {
        s
    }
}

/// `s` without its leading whitespace.
pub open spec fn trim_start(s: Seq<char>) -> Seq<char>
    decreases s.len(),
{
    if s.len() > 0 && is_ws(s[0]) {
        trim_start(s.drop_first())
    } else {
        s
    }
}

/// `s` without leading and trailing whitespace.
pub open spec fn trim(s: Seq<char>) -> Seq<char> {
    trim_end(trim_start(s))
}

/// `trim_end(s)` is the prefix of `s` up to its last non-whitespace character.
pub proof fn lemma_trim_end(s: Seq<char>)
    ensures
        trim_end(s).len() <= s.len(),
        trim_end(s) == s.take(trim_end(s).len() as int),
        forall|i: int| trim_end(s).len() <= i < s.len() ==> is_ws(#[trigger] s[i]),
        trim_end(s).len() > 0 ==> !is_ws(s[trim_end(s).len() - 1]),
    decreases s.len(),
{
    if s.len() > 0 && is_ws(s.last()) {
        lemma_trim_end(s.drop_last());
        assert(s.drop_last().take(trim_end(s).len() as int) == s.take(trim_end(s).len() as int));
        assert forall|i: int| trim_end(s).len() <= i < s.len() implies is_ws(#[trigger] s[i]) by {
            if i < s.len() - 1 {
                assert(s[i] == s.drop_last()[i]);
            }
        }
    } else {
        assert(s.take(s.len() as int) == s);
    }
}

/// `trim_start(s)` is the suffix of `s` from its first non-whitespace character.
pub proof fn lemma_trim_start(s: Seq<char>)
    ensures
        trim_start(s).len() <= s.len(),
        trim_start(s) == s.skip(s.len() - trim_start(s).len()),
        forall|i: int| 0 <= i < s.len() - trim_start(s).len() ==> is_ws(#[trigger] s[i]),
        trim_start(s).len() > 0 ==> !is_ws(s[s.len() - trim_start(s).len()]),
    decreases s.len(),
{
    if s.len() > 0 && is_ws(s[0]) {
        lemma_trim_start(s.drop_first());
        assert(s.drop_first().skip(s.drop_first().len() - trim_start(s).len()) == s.skip(
            s.len() - trim_start(s).len(),
        ));
        assert forall|i: int| 0 <= i < s.len() - trim_start(s).len() implies is_ws(
            #[trigger] s[i],
        ) by {
            if i > 0 {
                assert(s[i] == s.drop_first()[i - 1]);
            }
        }
    } else {
        assert(s.skip(0) == s);
    }
}

/// A sequence trims to nothing exactly when it is all whitespace.
pub proof fn lemma_trim_empty_iff_blank(s: Seq<char>)
    ensures
        (trim(s).len() == 0) == all_ws(s),
{
    lemma_trim_start(s);
    lemma_trim_end(trim_start(s));
    let t = trim_start(s);
    if trim(s).len() == 0 {
        assert forall|i: int| 0 <= i < s.len() implies is_ws(#[trigger] s[i]) by {
            if i >= s.len() - t.len() {
                assert(s[i] == t[i - (s.len() - t.len())]);
            }
        }
    } else {
        let k = trim(s).len() - 1;
        assert(!is_ws(t[k]));
        assert(t[k] == s[s.len() - t.len() + k]);
    }
}

/// Index of the end of `s[..]` once trailing whitespace is dropped.
pub fn trim_end_len(s: &Vec<char>) -> (n: usize)
    ensures
        n <= s.len(),
        s@.take(n as int) == trim_end(s@),
{
    let mut n = s.len();
    proof {
        assert(s@.take(n as int) == s@);
    }
    while n > 0 && is_whitespace(s[n - 1])
        invariant
            n <= s.len(),
            trim_end(s@.take(n as int)) == trim_end(s@),
        decreases n,
    {
        proof {
            assert(s@.take(n as int).drop_last() == s@.take(n - 1));
        }
        n = n - 1;
    }
    n
}

/// `s` without its trailing whitespace.
pub fn trim_end_string(s: &str) -> (t: String)
    ensures
        t@ == trim_end(s@),
{
    let v = chars_of(s);
    let n = trim_end_len(&v);
    let t = string_of_range(&v, 0, n);
    proof {
        assert(v@.subrange(0, n as int) == v@.take(n as int));
    }
    t
}

/// `s` without leading and trailing whitespace.
pub fn trim_string(s: &str) -> (t: String)
    ensures
        t@ == trim(s@),
{
    let v = chars_of(s);
    let start = trim_start_index(&v);
    let rest = string_of_range(&v, start, v.len());
    proof {
        assert(v@.subrange(start as int, v.len() as int) == v@.skip(start as int));
    }
    trim_end_string(rest.as_str())
}

/// Index of the first character that is not whitespace (or the length).
pub fn trim_start_index(s: &Vec<char>) -> (n: usize)
    ensures
        n <= s.len(),
        s@.skip(n as int) == trim_start(s@),
{
    let mut n: usize = 0;
    proof {
        assert(s@.skip(0) == s@);
    }
    while n < s.len() && is_whitespace(s[n])
        invariant
            n <= s.len(),
            trim_start(s@.skip(n as int)) == trim_start(s@),
        decreases s.len() - n,
    {
        proof {
            assert(s@.skip(n as int).drop_first() == s@.skip(n + 1));
        }
        n = n + 1;
    }
    n
}

/// True when every character of `s` is whitespace.
pub fn is_blank_chars(s: &Vec<char>) -> (b: bool)
    ensures
        b == is_blank(s@),
{
    let mut i: usize = 0;
    while i < s.len()
        invariant
            i <= s.len(),
            forall|j: int| 0 <= j < i ==> is_ws(#[trigger] s@[j]),
        decreases s.len() - i,
    {
        if !is_whitespace(s[i]) {
            return false;
        }
        i = i + 1;
    }
    true
}

/// True when every character of `s` is whitespace.
pub fn is_blank_str(s: &str) -> (b: bool)
    ensures
        b == is_blank(s@),
{
    let v = chars_of(s);
    is_blank_chars(&v)
}

// ---------------------------------------------------------------------------
// Conversions between `str`, `String` and `Vec<char>`
// ---------------------------------------------------------------------------
/// The characters of `s`, in order.
pub fn chars_of(s: &str) -> (v: Vec<char>)
    ensures
        v@ == s@,
{
    let mut v: Vec<char> = Vec::new();
    for c in it: s.chars()
        invariant
            it.seq() == s@,
            v@ == s@.take(it.index() as int),
    {
        v.push(c);
    }
    v
}

/// `String::push`: appends one character.
#[verifier::external_body]
pub fn push_char(s: &mut String, c: char)
    ensures
        final(s)@ == old(s)@.push(c),
{
    s.push(c);
}

/// The string made of `v[from..to]`.
pub fn string_of_range(v: &Vec<char>, from: usize, to: usize) -> (s: String)
    requires
        from <= to <= v.len(),
    ensures
        s@ == v@.subrange(from as int, to as int),
{
    let mut s = String::new();
    let mut i = from;
    while i < to
        invariant
            from <= i <= to <= v.len(),
            s@ == v@.subrange(from as int, i as int),
        decreases to - i,
    {
        push_char(&mut s, v[i]);
        proof {
            assert(v@.subrange(from as int, i + 1) == v@.subrange(from as int, i as int).push(
                v@[i as int],
            ));
        }
        i = i + 1;
    }
    s
}

/// The string made of all of `v`.
pub fn string_of_chars(v: &Vec<char>) -> (s: String)
    ensures
        s@ == v@,
{
    let s = string_of_range(v, 0, v.len());
    proof {
        assert(v@.subrange(0, v.len() as int) == v@);
    }
    s
}

/// Appends `t` to `s`.
pub fn append_str(s: &mut String, t: &str)
    ensures
        final(s)@ == old(s)@ + t@,
{
    let v = chars_of(t);
    let ghost s0 = s@;
    let mut i: usize = 0;
    while i < v.len()
        invariant
            i <= v.len(),
            v@ == t@,
            s@ == s0 + v@.take(i as int),
        decreases v.len() - i,
    {
        push_char(s, v[i]);
        proof {
            assert(v@.take(i + 1) == v@.take(i as int).push(v@[i as int]));
        }
        i = i + 1;
    }
    proof {
        assert(v@.take(v.len() as int) == v@);
    }
}

/// A `String` holding `s`.
pub fn owned(s: &str) -> (t: String)
    ensures
        t@ == s@,
{
    let mut t = String::new();
    append_str(&mut t, s);
    t
}

/// `String::clone`, keeping the characters.
pub fn copy_string(s: &String) -> (t: String)
    ensures
        t@ == s@,
{
    s.clone()
}

// ---------------------------------------------------------------------------
// Lines
// ---------------------------------------------------------------------------
/// A line without one trailing carriage return, if it has one.
pub open spec fn strip_cr(l: Seq<char>) -> Seq<char> {
    if l.len() > 0 && l.last() == '\r' {
        l.drop_last()
    } else {
        l
    }
}

/// The lines of `s`, where `cur` is the part of the current line already read:
/// a line ends at `\n` (a `\r` just before it is dropped), and a final line is
/// there only if it holds at least one character.
pub open spec fn lines_from(s: Seq<char>, cur: Seq<char>) -> Seq<Seq<char>>
    decreases s.len(),
{
    if s.len() == 0 {
        if cur.len() == 0 {
            seq![]
        } else {
            seq![cur]
        }
    } else if s[0] == '\n' {
        seq![strip_cr(cur)] + lines_from(s.drop_first(), seq![])
    } else {
        lines_from(s.drop_first(), cur.push(s[0]))
    }
}

/// The lines of a text, as `str::lines` yields them.
pub open spec fn spec_lines(s: Seq<char>) -> Seq<Seq<char>> {
    lines_from(s, seq![])
}

/// `str::lines` on the characters of `s`.
pub fn split_lines(s: &str) -> (ls: Vec<String>)
    ensures
        ls.deep_view() == spec_lines(s@),
{
    let v = chars_of(s);
    let mut ls: Vec<String> = Vec::new();
    let mut start: usize = 0;
    let mut i: usize = 0;
    proof {
        assert(v@.skip(0) == v@);
        assert(v@.subrange(0, 0) == Seq::<char>::empty());
    }
    while i < v.len()
        invariant
            v@ == s@,
            start <= i <= v.len(),
            forall|j: int| start <= j < i ==> v@[j] != '\n',
            spec_lines(s@) == ls.deep_view() + lines_from(
                v@.skip(i as int),
                v@.subrange(start as int, i as int),
            ),
        decreases v.len() - i,
    {
        let ghost cur = v@.subrange(start as int, i as int);
        proof {
            assert(v@.skip(i as int).drop_first() == v@.skip(i + 1));
            assert(v@.skip(i as int)[0] == v@[i as int]);
        }
        if v[i] == '\n' {
            let mut end = i;
            if end > start && v[end - 1] == '\r' {
                end = end - 1;
                proof {
                    assert(cur.drop_last() == v@.subrange(start as int, end as int));
                }
            }
            let line = string_of_range(&v, start, end);
            let ghost before = ls.deep_view();
            ls.push(line);
            proof {
                assert(ls.deep_view() == before.push(strip_cr(cur)));
                assert(v@.subrange(i + 1, i + 1) == Seq::<char>::empty());
                assert(seq![strip_cr(cur)] + lines_from(v@.skip(i + 1), seq![]) == seq![
                    strip_cr(cur),
                ] + lines_from(v@.skip(i + 1), v@.subrange(i + 1, i + 1)));
                assert(before + (seq![strip_cr(cur)] + lines_from(
                    v@.skip(i + 1),
                    v@.subrange(i + 1, i + 1),
                )) == before.push(strip_cr(cur)) + lines_from(
                    v@.skip(i + 1),
                    v@.subrange(i + 1, i + 1),
                ));
            }
            start = i + 1;
        } else {
            proof {
                assert(cur.push(v@[i as int]) == v@.subrange(start as int, i + 1));
            }
        }
        i = i + 1;
    }
    proof {
        assert(v@.skip(i as int) == Seq::<char>::empty());
    }
    if start < v.len() {
        let line = string_of_range(&v, start, v.len());
        let ghost before = ls.deep_view();
        ls.push(line);
        proof {
            assert(ls.deep_view() == before.push(v@.subrange(start as int, v.len() as int)));
        }
    } else {
        proof {
            assert(ls.deep_view() + Seq::<Seq<char>>::empty() == ls.deep_view());
        }
    }
    ls
}

/// The lines of a list joined by `\n`, as `[String]::join("\n")` gives them.
pub open spec fn join_lines(xs: Seq<Seq<char>>) -> Seq<char>
    decreases xs.len(),
{
    if xs.len() == 0 {
        seq![]
    } else if xs.len() == 1 {
        xs[0]
    } else {
        join_lines(xs.drop_last()) + seq!['\n'] + xs.last()
    }
}

/// `lines.join("\n")`.
pub fn join_with_newlines(lines: &Vec<String>) -> (s: String)
    ensures
        s@ == join_lines(lines.deep_view()),
{
    let mut s = String::new();
    let mut i: usize = 0;
    while i < lines.len()
        invariant
            i <= lines.len(),
            s@ == join_lines(lines.deep_view().take(i as int)),
        decreases lines.len() - i,
    {
        let ghost prev = lines.deep_view().take(i as int);
        proof {
            assert(lines.deep_view().take(i + 1).drop_last() == prev);
            assert(lines.deep_view().take(i + 1).last() == lines@[i as int]@);
        }
        if i > 0 {
            push_char(&mut s, '\n');
        } else {
            proof {
                assert(lines.deep_view().take(1) == seq![lines@[0]@]);
            }
        }
        append_str(&mut s, lines[i].as_str());
        i = i + 1;
    }
    proof {
        assert(lines.deep_view().take(lines.len() as int) == lines.deep_view());
    }
    s
}

// ---------------------------------------------------------------------------
// Splitting what was joined
// ---------------------------------------------------------------------------
/// A line that splitting gives back as it is: no newline in it, no carriage
/// return at its end, and not empty.
pub open spec fn is_plain_line(l: Seq<char>) -> bool {
    &&& l.len() > 0
    &&& !l.contains('\n')
    &&& l.last() != '\r'
}

proof fn lemma_lines_from_chunk(a: Seq<char>, rest: Seq<char>, cur: Seq<char>)
    requires
        !a.contains('\n'),
    ensures
        lines_from(a + rest, cur) == lines_from(rest, cur + a),
    decreases a.len(),
{
    if a.len() == 0 {
        assert(a + rest == rest);
        assert(cur + a == cur);
    } else {
        assert((a + rest)[0] == a[0]);
        assert((a + rest).drop_first() == a.drop_first() + rest);
        assert(!a.drop_first().contains('\n')) by {
            if a.drop_first().contains('\n') {
                let k = choose|k: int| 0 <= k < a.drop_first().len() && a.drop_first()[k] == '\n';
                assert(a[k + 1] == '\n');
            }
        }
        assert(a[0] != '\n') by {
            if a[0] == '\n' {
                assert(a.contains('\n'));
            }
        }
        lemma_lines_from_chunk(a.drop_first(), rest, cur.push(a[0]));
        assert(cur.push(a[0]) + a.drop_first() == cur + a);
    }
}

/// Joining with newlines, seen from the front.
proof fn lemma_join_front(xs: Seq<Seq<char>>)
    requires
        xs.len() >= 2,
    ensures
        join_lines(xs) == xs[0] + (seq!['\n'] + join_lines(xs.drop_first())),
    decreases xs.len(),
{
    if xs.len() == 2 {
        assert(xs.drop_last() == seq![xs[0]]);
        assert(xs.drop_first() == seq![xs[1]]);
        assert(join_lines(xs.drop_last()) == xs[0]);
        assert(join_lines(xs.drop_first()) == xs[1]);
        assert(xs.last() == xs[1]);
        assert(xs[0] + seq!['\n'] + xs[1] =~= xs[0] + (seq!['\n'] + xs[1]));
    } else {
        lemma_join_front(xs.drop_last());
        assert(xs.drop_last().drop_first() == xs.drop_first().drop_last());
        assert(xs.drop_last()[0] == xs[0]);
        assert(xs.drop_first().last() == xs.last());
        let a = xs[0];
        let b = join_lines(xs.drop_first().drop_last());
        let l = xs.last();
        assert(join_lines(xs.drop_first()) == b + seq!['\n'] + l);
        assert(a + (seq!['\n'] + b) + seq!['\n'] + l =~= a + (seq!['\n'] + (b + seq!['\n'] + l)));
    }
}

/// Splitting the newline-join of plain lines gives the lines back.
pub proof fn lemma_split_join(xs: Seq<Seq<char>>)
    requires
        forall|k: int| 0 <= k < xs.len() ==> is_plain_line(#[trigger] xs[k]),
    ensures
        spec_lines(join_lines(xs)) == xs,
    decreases xs.len(),
{
    if xs.len() == 0 {
    } else if xs.len() == 1 {
        lemma_lines_from_chunk(xs[0], seq![], seq![]);
        assert(xs[0] + Seq::<char>::empty() == xs[0]);
        assert(Seq::<char>::empty() + xs[0] == xs[0]);
        assert(xs =~= seq![xs[0]]);
    } else {
        let rest = xs.drop_first();
        assert forall|k: int| 0 <= k < rest.len() implies is_plain_line(#[trigger] rest[k]) by {
            assert(rest[k] == xs[k + 1]);
        }
        lemma_split_join(rest);
        lemma_join_front(xs);
        assert(is_plain_line(xs[0]));
        lemma_lines_from_chunk(xs[0], seq!['\n'] + join_lines(rest), seq![]);
        assert(Seq::<char>::empty() + xs[0] == xs[0]);
        assert((seq!['\n'] + join_lines(rest))[0] == '\n');
        assert((seq!['\n'] + join_lines(rest)).drop_first() == join_lines(rest));
        assert(strip_cr(xs[0]) == xs[0]);
        assert(seq![xs[0]] + rest == xs);
    }
}

// ---------------------------------------------------------------------------
// Subsequences
// ---------------------------------------------------------------------------
/// `a` is what remains of `b` after deleting some of its characters.
pub open spec fn is_subseq(a: Seq<char>, b: Seq<char>) -> bool
    decreases b.len(),
{
    if a.len() == 0 {
        true
    } else if b.len() == 0 {
        false
    } else if a.last() == b.last() {
        is_subseq(a.drop_last(), b.drop_last())
    } else {
        is_subseq(a, b.drop_last())
    }
}

/// A subsequence stays one when a character is added at the end of the
/// longer sequence.
pub proof fn lemma_subseq_push(a: Seq<char>, b: Seq<char>, c: char)
    requires
        is_subseq(a, b),
    ensures
        is_subseq(a, b.push(c)),
    decreases b.len(), 1int,
{
    assert(b.push(c).drop_last() == b);
    assert(b.push(c).last() == c);
    if a.len() > 0 && a.last() == c {
        lemma_subseq_drop_last(a, b);
    }
}

/// Dropping the last character of a subsequence leaves a subsequence.
pub proof fn lemma_subseq_drop_last(a: Seq<char>, b: Seq<char>)
    requires
        a.len() > 0,
        is_subseq(a, b),
    ensures
        is_subseq(a.drop_last(), b),
    decreases b.len(), 0int,
{
    if b.len() > 0 {
        if a.last() == b.last() {
            lemma_subseq_push(a.drop_last(), b.drop_last(), b.last());
        } else {
            lemma_subseq_drop_last(a, b.drop_last());
            lemma_subseq_push(a.drop_last(), b.drop_last(), b.last());
        }
        assert(b.drop_last().push(b.last()) == b);
    }
}

/// A subsequence of a prefix is a subsequence of any longer prefix.
pub proof fn lemma_subseq_longer_prefix(a: Seq<char>, b: Seq<char>, i: int, j: int)
    requires
        0 <= i <= j <= b.len(),
        is_subseq(a, b.take(i)),
    ensures
        is_subseq(a, b.take(j)),
    decreases j - i,
{
    if i < j {
        lemma_subseq_push(a, b.take(i), b[i]);
        assert(b.take(i).push(b[i]) == b.take(i + 1));
        lemma_subseq_longer_prefix(a, b, i + 1, j);
    }
}

/// A character absent from a sequence is absent from its subsequences.
pub proof fn lemma_subseq_lacks(a: Seq<char>, b: Seq<char>, c: char)
    requires
        is_subseq(a, b),
        !b.contains(c),
    ensures
        !a.contains(c),
    decreases b.len(),
{
    if a.len() > 0 && b.len() > 0 {
        assert(!b.drop_last().contains(c)) by {
            if b.drop_last().contains(c) {
                let k = choose|k: int| 0 <= k < b.drop_last().len() && b.drop_last()[k] == c;
                assert(b[k] == c);
            }
        }
        if a.last() == b.last() {
            lemma_subseq_lacks(a.drop_last(), b.drop_last(), c);
            assert(b[b.len() - 1] == b.last());
            if a.contains(c) {
                let k = choose|k: int| 0 <= k < a.len() && a[k] == c;
                if k < a.len() - 1 {
                    assert(a.drop_last()[k] == c);
                }
            }
        } else {
            lemma_subseq_lacks(a, b.drop_last(), c);
        }
    }
}

/// No line of a text holds a newline.
pub proof fn lemma_lines_lack_newline(s: Seq<char>, cur: Seq<char>)
    requires
        !cur.contains('\n'),
    ensures
        forall|k: int| 0 <= k < lines_from(s, cur).len() ==> !(#[trigger] lines_from(s, cur)[k]).contains('\n'),
    decreases s.len(),
{
    if s.len() == 0 {
        if cur.len() > 0 {
            assert(lines_from(s, cur) == seq![cur]);
            assert(lines_from(s, cur)[0] == cur);
        } else {
            assert(lines_from(s, cur).len() == 0);
        }
    } else if s[0] == '\n' {
        let e: Seq<char> = seq![];
        lemma_lines_lack_newline(s.drop_first(), e);
        let l = strip_cr(cur);
        assert(!l.contains('\n')) by {
            if l.contains('\n') {
                let k = choose|k: int| 0 <= k < l.len() && l[k] == '\n';
                assert(cur[k] == '\n');
            }
        }
        let r = lines_from(s.drop_first(), e);
        assert forall|k: int| 0 <= k < lines_from(s, cur).len() implies !(
        #[trigger] lines_from(s, cur)[k]).contains('\n') by {
            assert(lines_from(s, cur) == seq![l] + r);
            if k > 0 {
                assert(lines_from(s, cur)[k] == r[k - 1]);
            }
        }
    } else {
        let c2 = cur.push(s[0]);
        assert(!c2.contains('\n')) by {
            if c2.contains('\n') {
                let k = choose|k: int| 0 <= k < c2.len() && c2[k] == '\n';
                if k < cur.len() {
                    assert(cur[k] == '\n');
                }
            }
        }
        lemma_lines_lack_newline(s.drop_first(), c2);
        assert(lines_from(s, cur) == lines_from(s.drop_first(), c2));
    }
}

/// The pieces of `s` between newlines, as `str::split('\n')` gives them: a
/// piece for each newline plus one, empty pieces included.
pub open spec fn pieces_from(s: Seq<char>, cur: Seq<char>) -> Seq<Seq<char>>
    decreases s.len(),
{
    if s.len() == 0 {
        seq![cur]
    } else if s[0] == '\n' {
        seq![cur] + pieces_from(s.drop_first(), seq![])
    } else {
        pieces_from(s.drop_first(), cur.push(s[0]))
    }
}

pub open spec fn newline_pieces(s: Seq<char>) -> Seq<Seq<char>> {
    pieces_from(s, seq![])
}

proof fn lemma_pieces_chunk(a: Seq<char>, rest: Seq<char>, cur: Seq<char>)
    requires
        !a.contains('\n'),
    ensures
        pieces_from(a + rest, cur) == pieces_from(rest, cur + a),
    decreases a.len(),
{
    if a.len() == 0 {
        assert(a + rest == rest);
        assert(cur + a == cur);
    } else {
        assert((a + rest)[0] == a[0]);
        assert((a + rest).drop_first() == a.drop_first() + rest);
        assert(!a.drop_first().contains('\n')) by {
            if a.drop_first().contains('\n') {
                let k = choose|k: int| 0 <= k < a.drop_first().len() && a.drop_first()[k] == '\n';
                assert(a[k + 1] == '\n');
            }
        }
        assert(a[0] != '\n') by {
            if a[0] == '\n' {
                assert(a.contains('\n'));
            }
        }
        lemma_pieces_chunk(a.drop_first(), rest, cur.push(a[0]));
        assert(cur.push(a[0]) + a.drop_first() == cur + a);
    }
}

/// Cutting at newlines the newline-join of lines without newlines gives the
/// lines back.
pub proof fn lemma_pieces_of_join(xs: Seq<Seq<char>>)
    requires
        xs.len() > 0,
        forall|k: int| 0 <= k < xs.len() ==> !(#[trigger] xs[k]).contains('\n'),
    ensures
        newline_pieces(join_lines(xs)) == xs,
    decreases xs.len(),
{
    if xs.len() == 1 {
        lemma_pieces_chunk(xs[0], seq![], seq![]);
        assert(xs[0] + Seq::<char>::empty() == xs[0]);
        assert(Seq::<char>::empty() + xs[0] == xs[0]);
        assert(xs =~= seq![xs[0]]);
    } else {
        let rest = xs.drop_first();
        assert forall|k: int| 0 <= k < rest.len() implies !(#[trigger] rest[k]).contains('\n') by {
            assert(rest[k] == xs[k + 1]);
        }
        lemma_pieces_of_join(rest);
        lemma_join_front(xs);
        assert(!xs[0].contains('\n'));
        lemma_pieces_chunk(xs[0], seq!['\n'] + join_lines(rest), seq![]);
        assert(Seq::<char>::empty() + xs[0] == xs[0]);
        assert((seq!['\n'] + join_lines(rest))[0] == '\n');
        assert((seq!['\n'] + join_lines(rest)).drop_first() == join_lines(rest));
        assert(seq![xs[0]] + rest == xs);
    }
}

} // verus!
