//! Text helpers: characters of a string, building strings, splitting into
//! lines and into whitespace-separated words.

use vstd::prelude::*;
use crate::chars::{is_white_space, spec_is_white_space};

verus! {

/// The characters of `s`, in order.
pub fn chars_of(s: &str) -> (v: Vec<char>)
    ensures
        v@ == s@,
{
    let mut v: Vec<char> = Vec::new();
    for c in it: s.chars()
        invariant
            v@ == it.seq().take(it.index() as int),
    {
        v.push(c);
    }
    v
}

/// `String::push`: appends the character `c` to `s`.
#[verifier::external_body]
fn push_char(s: &mut String, c: char)
    ensures
        final(s)@ == old(s)@.push(c),
{
    s.push(c)
}

/// The string made of `v[from..to]`.
pub fn string_of_range(v: &Vec<char>, from: usize, to: usize) -> (s: String)
    requires
        from <= to <= v.len(),
    ensures
        s@ == v@.subrange(from as int, to as int),
{
    let mut s = String::new();
    let mut i = from;
    while i < to
        invariant
            from <= i <= to <= v.len(),
            s@ == v@.subrange(from as int, i as int),
        decreases to - i,
    {
        push_char(&mut s, v[i]);
        assert(v@.subrange(from as int, i + 1) =~= v@.subrange(from as int, i as int).push(v@[i as int]));
        i = i + 1;
    }
    s
}

/// A copy of `v[from..to]`.
pub fn vec_of_range(v: &Vec<char>, from: usize, to: usize) -> (w: Vec<char>)
    requires
        from <= to <= v.len(),
    ensures
        w@ == v@.subrange(from as int, to as int),
{
    let mut w: Vec<char> = Vec::new();
    let mut i = from;
    while i < to
        invariant
            from <= i <= to <= v.len(),
            w@ == v@.subrange(from as int, i as int),
        decreases to - i,
    {
        w.push(v[i]);
        assert(v@.subrange(from as int, i + 1) =~= v@.subrange(from as int, i as int).push(v@[i as int]));
        i = i + 1;
    }
    w
}

/// The texts of the strings `v`, in order.
pub open spec fn views(v: Seq<String>) -> Seq<Seq<char>> {
    v.map_values(|w: String| w@)
}

/// The classes of characters that the scanners below look for.
#[derive(Clone, Copy, PartialEq, Eq, Structural)]
pub enum Stop {
    /// A line feed `\n`.
    Newline,
    /// A character with the `White_Space` property.
    WhiteSpace,
    /// A character without the `White_Space` property.
    NonWhiteSpace,
}

/// Whether `c` belongs to the class `stop`.
pub open spec fn spec_stops_at(stop: Stop, c: char) -> bool {
    match stop {
        Stop::Newline => c == '\n',
        Stop::WhiteSpace => spec_is_white_space(c),
        Stop::NonWhiteSpace => !spec_is_white_space(c),
    }
}

fn stops_at(stop: Stop, c: char) -> (b: bool)
    ensures
        b == spec_stops_at(stop, c),
{
    match stop {
        Stop::Newline => c == '\n',
        Stop::WhiteSpace => is_white_space(c),
        Stop::NonWhiteSpace => !is_white_space(c),
    }
}

/// The first index `j >= i` at which `s` holds a character of class `stop`,
/// or `s.len()` when there is none.
pub open spec fn first_stop(s: Seq<char>, i: int, stop: Stop) -> int
    decreases s.len() - i,
{
    if i >= s.len() {
        s.len() as int
    } else if spec_stops_at(stop, s[i]) {
        i
    } else {
        first_stop(s, i + 1, stop)
    }
}

/// `first_stop` is the end of the run of characters outside `stop` that
/// begins at `i`.
pub proof fn lemma_first_stop(s: Seq<char>, i: int, stop: Stop)
    requires
        0 <= i <= s.len(),
    ensures
        i <= first_stop(s, i, stop) <= s.len(),
        forall|k: int| i <= k < first_stop(s, i, stop) ==> !spec_stops_at(stop, #[trigger] s[k]),
        first_stop(s, i, stop) < s.len() ==> spec_stops_at(stop, s[first_stop(s, i, stop)]),
    decreases s.len() - i,
{
    if i < s.len() && !spec_stops_at(stop, s[i]) {
        lemma_first_stop(s, i + 1, stop);
    }
}

/// A run of characters outside `stop` from `i` to `j` that ends at a
/// character of class `stop` (or at the end) is what `first_stop` finds.
pub proof fn lemma_first_stop_is(s: Seq<char>, i: int, j: int, stop: Stop)
    requires
        0 <= i <= j <= s.len(),
        forall|k: int| i <= k < j ==> !spec_stops_at(stop, #[trigger] s[k]),
        j < s.len() ==> spec_stops_at(stop, s[j]),
    ensures
        first_stop(s, i, stop) == j,
    decreases j - i,
{
    if i < j {
        assert(!spec_stops_at(stop, s[i]));
        lemma_first_stop_is(s, i + 1, j, stop);
    }
}

/// Scans `v` from `i` for the first character of class `stop`.
pub fn find_stop(v: &Vec<char>, i: usize, stop: Stop) -> (j: usize)
    requires
        i <= v.len(),
    ensures
        j == first_stop(v@, i as int, stop),
        i <= j <= v.len(),
        forall|k: int| i <= k < j ==> !spec_stops_at(stop, #[trigger] v@[k]),
        j < v.len() ==> spec_stops_at(stop, v@[j as int]),
{
    let mut j = i;
    while j < v.len() && !stops_at(stop, v[j])
        invariant
            i <= j <= v.len(),
            forall|k: int| i <= k < j ==> !spec_stops_at(stop, #[trigger] v@[k]),
        decreases v.len() - j,
    {
        j = j + 1;
    }
    proof {
        lemma_first_stop_is(v@, i as int, j as int, stop);
    }
    j
}


/// The line that runs from `i` up to the line feed at `j` (or the end of the
/// text at `j`): a carriage return just before a line feed belongs to the line
/// ending, not to the line.
pub open spec fn line_body(s: Seq<char>, i: int, j: int) -> Seq<char> {
    if j < s.len() && i < j && s[j - 1] == '\r' {
        s.subrange(i, j - 1)
    } else {
        s.subrange(i, j)
    }
}

/// The lines of `s` from index `i` on, as `str::lines` gives them: lines end
/// at `\n` or `\r\n`, the terminator is not part of the line, and a final line
/// ending does not start another (empty) line.
pub open spec fn lines_from(s: Seq<char>, i: int) -> Seq<Seq<char>>
    decreases s.len() + 1 - i,
    when 0 <= i
{
    if i >= s.len() {
        seq![]
    } else {
        let j = first_stop(s, i, Stop::Newline);
        proof {
            lemma_first_stop(s, i, Stop::Newline);
        }
        seq![line_body(s, i, j)] + lines_from(s, j + 1)
    }
}

/// The lines of the text `s`, as `str::lines` gives them.
pub open spec fn lines_of(s: Seq<char>) -> Seq<Seq<char>> {
    lines_from(s, 0)
}

/// `a` is empty or ends with a line feed: text after it starts a new line.
pub open spec fn ends_with_line_end(a: Seq<char>) -> bool {
    a.len() == 0 || a[a.len() - 1] == '\n'
}

/// The lines of `x + t` after `x` are the lines of `t`.
proof fn lemma_lines_shift(x: Seq<char>, t: Seq<char>, i: int)
    requires
        0 <= i <= t.len(),
    ensures
        lines_from(x + t, x.len() + i) == lines_from(t, i),
    decreases t.len() - i,
{
    let s = x + t;
    if i < t.len() {
        lemma_first_stop_shift(x, t, i, Stop::Newline);
        lemma_first_stop(t, i, Stop::Newline);
        let j = first_stop(t, i, Stop::Newline);
        if j > i {
            assert(s[x.len() + j - 1] == t[j - 1]);
        }
        assert(line_body(s, x.len() + i, x.len() + j) =~= line_body(t, i, j));
        if j < t.len() {
            lemma_lines_shift(x, t, j + 1);
        } else {
            assert(lines_from(s, x.len() + j + 1) =~= Seq::<Seq<char>>::empty());
            assert(lines_from(t, j + 1) =~= Seq::<Seq<char>>::empty());
        }
    } else {
        assert(lines_from(s, x.len() + i) =~= Seq::<Seq<char>>::empty());
    }
}

/// The lines of `a + b` that start within `a`, when `a` ends with a line
/// feed, are the lines of `a`.
proof fn lemma_lines_prefix(a: Seq<char>, b: Seq<char>, i: int)
    requires
        ends_with_line_end(a),
        0 <= i <= a.len(),
    ensures
        lines_from(a + b, i) == lines_from(a, i) + lines_from(a + b, a.len() as int),
    decreases a.len() - i,
{
    let s = a + b;
    if i == a.len() {
        assert(lines_from(a, i) =~= Seq::<Seq<char>>::empty());
        assert(lines_from(s, i) =~= lines_from(a, i) + lines_from(s, a.len() as int));
    } else {
        lemma_first_stop(a, i, Stop::Newline);
        let j = first_stop(a, i, Stop::Newline);
        if j == a.len() {
            assert(!spec_stops_at(Stop::Newline, a[a.len() - 1]));
        }
        assert forall|k: int| i <= k < j implies !spec_stops_at(Stop::Newline, #[trigger] s[k]) by {
            assert(s[k] == a[k]);
        }
        assert(s[j] == a[j]);
        lemma_first_stop_is(s, i, j, Stop::Newline);
        if j > i {
            assert(s[j - 1] == a[j - 1]);
        }
        assert(line_body(s, i, j) =~= line_body(a, i, j));
        lemma_lines_prefix(a, b, j + 1);
        assert(lines_from(s, i) =~= lines_from(a, i) + lines_from(s, a.len() as int));
    }
}

/// The lines of two texts joined after a line end are the lines of each in
/// turn.
pub proof fn lemma_lines_of_concat(a: Seq<char>, b: Seq<char>)
    requires
        ends_with_line_end(a),
    ensures
        lines_of(a + b) == lines_of(a) + lines_of(b),
{
    lemma_lines_prefix(a, b, 0);
    lemma_lines_shift(a, b, 0);
    assert(a.len() + 0 == a.len());
}

/// A text made of one line `x` and its line feed has that one line, when `x`
/// holds no line feed and does not end with a carriage return.
pub proof fn lemma_lines_of_one_line(x: Seq<char>)
    requires
        forall|k: int| 0 <= k < x.len() ==> x[k] != '\n',
        x.len() == 0 || x[x.len() - 1] != '\r',
    ensures
        lines_of(x.push('\n')) == seq![x],
{
    let s = x.push('\n');
    assert forall|k: int| 0 <= k < x.len() implies !spec_stops_at(Stop::Newline, #[trigger] s[k]) by {
        assert(s[k] == x[k]);
    }
    lemma_first_stop_is(s, 0, x.len() as int, Stop::Newline);
    if x.len() > 0 {
        assert(s[x.len() - 1] == x[x.len() - 1]);
    }
    assert(line_body(s, 0, x.len() as int) =~= x);
    assert(lines_from(s, x.len() + 1int) =~= Seq::<Seq<char>>::empty());
    assert(lines_of(s) =~= seq![x]);
}

/// The text made of the lines `ls`, each followed by a line feed.
pub open spec fn join_lines(ls: Seq<Seq<char>>) -> Seq<char>
    decreases ls.len(),
{
    if ls.len() == 0 {
        seq![]
    } else {
        join_lines(ls.drop_last()) + ls.last().push('\n')
    }
}

/// `l` can be a line: it holds no line feed and does not end with a carriage
/// return.
pub open spec fn is_plain_line(l: Seq<char>) -> bool {
    &&& forall|k: int| 0 <= k < l.len() ==> l[k] != '\n'
    &&& (l.len() == 0 || l[l.len() - 1] != '\r')
}

/// Splitting lines joined with line feeds gives the same lines back, in the
/// same order and as many.
pub proof fn lemma_lines_of_join(ls: Seq<Seq<char>>)
    requires
        forall|k: int| 0 <= k < ls.len() ==> is_plain_line(#[trigger] ls[k]),
    ensures
        lines_of(join_lines(ls)) == ls,
    decreases ls.len(),
{
    if ls.len() == 0 {
        assert(lines_of(join_lines(ls)) =~= ls);
    } else {
        let init = ls.drop_last();
        assert forall|k: int| 0 <= k < init.len() implies is_plain_line(#[trigger] init[k]) by {
            assert(init[k] == ls[k]);
        }
        lemma_lines_of_join(init);
        let j = join_lines(init);
        if j.len() > 0 {
            if init.len() > 0 {
                let last = init.last().push('\n');
                assert(j == join_lines(init.drop_last()) + last);
                assert(j[j.len() - 1] == last[last.len() - 1]);
            }
        }
        assert(ends_with_line_end(j));
        assert(is_plain_line(ls[ls.len() - 1]));
        lemma_lines_of_one_line(ls.last());
        lemma_lines_of_concat(j, ls.last().push('\n'));
        assert(lines_of(join_lines(ls)) =~= ls);
    }
}

/// Splits `v` into its lines, as `str::lines` does.
pub fn split_lines(v: &Vec<char>) -> (lines: Vec<Vec<char>>)
    ensures
        lines@.len() == lines_of(v@).len(),
        forall|k: int| 0 <= k < lines@.len() ==> (#[trigger] lines@[k])@ == lines_of(v@)[k],
{
    let mut lines: Vec<Vec<char>> = Vec::new();
    let mut start: usize = 0;
    while start < v.len()
        invariant
            start <= v.len(),
            lines@.len() + lines_from(v@, start as int).len() == lines_of(v@).len(),
            forall|k: int| 0 <= k < lines@.len() ==> (#[trigger] lines@[k])@ == lines_of(v@)[k],
            forall|k: int|
                0 <= k < lines_from(v@, start as int).len() ==> lines_of(v@)[lines@.len() + k]
                    == #[trigger] lines_from(v@, start as int)[k],
        decreases v.len() - start,
    {
        let j = find_stop(v, start, Stop::Newline);
        let body_end = if j < v.len() && start < j && v[j - 1] == '\r' {
            j - 1
        } else {
            j
        };
        let line = vec_of_range(v, start, body_end);
        let ghost rest = lines_from(v@, start as int);
        assert(rest == seq![line_body(v@, start as int, j as int)] + lines_from(v@, j + 1));
        assert(line@ == line_body(v@, start as int, j as int));
        assert(rest[0] == line@);
        assert forall|k: int| 0 <= k < lines_from(v@, j + 1).len() implies lines_of(v@)[lines@.len() + 1 + k]
            == #[trigger] lines_from(v@, j + 1)[k] by {
            assert(rest[k + 1] == lines_from(v@, j + 1)[k]);
        }
        lines.push(line);
        if j < v.len() {
            start = j + 1;
        } else {
            assert(lines_from(v@, j + 1) =~= Seq::<Seq<char>>::empty());
            assert(lines_from(v@, v.len() as int) =~= Seq::<Seq<char>>::empty());
            start = v.len();
        }
    }
    lines
}

/// The whitespace-separated words of `s` from index `i` on, as
/// `str::split_whitespace` gives them: maximal runs of characters without the
/// `White_Space` property.
pub open spec fn words_from(s: Seq<char>, i: int) -> Seq<Seq<char>>
    decreases s.len() - i,
    when 0 <= i
{
    let a = first_stop(s, i, Stop::NonWhiteSpace);
    if i >= s.len() || a >= s.len() {
        seq![]
    } else {
        let b = first_stop(s, a, Stop::WhiteSpace);
        proof {
            lemma_first_stop(s, i, Stop::NonWhiteSpace);
            lemma_first_stop(s, a, Stop::WhiteSpace);
        }
        seq![s.subrange(a, b)] + words_from(s, b)
    }
}

/// Scanning inside the second part of `x + t` is scanning `t`.
pub proof fn lemma_first_stop_shift(x: Seq<char>, t: Seq<char>, i: int, stop: Stop)
    requires
        0 <= i <= t.len(),
    ensures
        first_stop(x + t, x.len() + i, stop) == x.len() + first_stop(t, i, stop),
    decreases t.len() - i,
{
    if i < t.len() {
        assert((x + t)[x.len() + i] == t[i]);
        if !spec_stops_at(stop, t[i]) {
            lemma_first_stop_shift(x, t, i + 1, stop);
        }
    }
}

/// `s[a..b]` is a maximal run of characters without the `White_Space`
/// property: non-empty, with whitespace (or the text's start or end) on both
/// sides.
pub open spec fn is_maximal_run(s: Seq<char>, a: int, b: int) -> bool {
    &&& 0 <= a < b <= s.len()
    &&& forall|j: int| a <= j < b ==> !spec_is_white_space(#[trigger] s[j])
    &&& (a == 0 || spec_is_white_space(s[a - 1]))
    &&& (b == s.len() || spec_is_white_space(s[b]))
}

/// The words found from `i` on are the maximal runs of `s` that start at or
/// after `i`, all of them, each once, in order: the result gives the start
/// and end of the run of each word.
proof fn lemma_word_runs(s: Seq<char>, i: int) -> (r: (Seq<int>, Seq<int>))
    requires
        0 <= i <= s.len(),
        i == 0 || i == s.len() || spec_is_white_space(s[i]),
    ensures
        r.0.len() == words_from(s, i).len(),
        r.1.len() == words_from(s, i).len(),
        forall|k: int|
            0 <= k < r.0.len() ==> i <= #[trigger] r.0[k] && is_maximal_run(s, r.0[k], r.1[k])
                && words_from(s, i)[k] == s.subrange(r.0[k], r.1[k]),
        forall|k: int| 0 <= k < r.0.len() - 1 ==> #[trigger] r.1[k] < r.0[k + 1],
        forall|a: int, b: int|
            #[trigger] is_maximal_run(s, a, b) && i <= a ==> exists|k: int|
                0 <= k < r.0.len() && #[trigger] r.0[k] == a && r.1[k] == b,
    decreases s.len() - i,
{
    lemma_first_stop(s, i, Stop::NonWhiteSpace);
    let a = first_stop(s, i, Stop::NonWhiteSpace);
    if i >= s.len() || a >= s.len() {
        assert forall|a2: int, b2: int| #[trigger] is_maximal_run(s, a2, b2) && i <= a2 implies false by {
            assert(a2 < s.len());
            assert(!spec_is_white_space(s[a2]));
            assert(spec_stops_at(Stop::NonWhiteSpace, s[a2]));
        }
        let e: Seq<int> = seq![];
        assert(e.len() == 0);
        (e, e)
    } else {
        lemma_first_stop(s, a, Stop::WhiteSpace);
        let b = first_stop(s, a, Stop::WhiteSpace);
        if a > i {
            assert(!spec_stops_at(Stop::NonWhiteSpace, s[a - 1]));
        } else if i > 0 {
            assert(spec_stops_at(Stop::NonWhiteSpace, s[i]));
        }
        assert forall|j: int| a <= j < b implies !spec_is_white_space(#[trigger] s[j]) by {
            assert(!spec_stops_at(Stop::WhiteSpace, s[j]));
        }
        if b < s.len() {
            assert(spec_stops_at(Stop::WhiteSpace, s[b]));
        }
        assert(is_maximal_run(s, a, b));
        let (rs, re) = lemma_word_runs(s, b);
        let rest = words_from(s, b);
        assert(words_from(s, i) == seq![s.subrange(a, b)] + rest);
        let starts = seq![a] + rs;
        let ends = seq![b] + re;
        assert forall|k: int|
            0 <= k < starts.len() implies i <= #[trigger] starts[k] && is_maximal_run(s, starts[k], ends[k])
                && words_from(s, i)[k] == s.subrange(starts[k], ends[k]) by {
            if k > 0 {
                assert(starts[k] == rs[k - 1]);
                assert(ends[k] == re[k - 1]);
                assert(words_from(s, i)[k] == rest[k - 1]);
            }
        }
        assert forall|k: int| 0 <= k < starts.len() - 1 implies #[trigger] ends[k] < starts[k + 1] by {
            if k > 0 {
                assert(ends[k] == re[k - 1]);
                assert(starts[k + 1] == rs[k]);
            } else {
                assert(starts[1] == rs[0]);
                assert(b <= rs[0]);
                assert(s[b] == s[b]);
                assert(is_maximal_run(s, rs[0], re[0]));
                if rs[0] == b {
                    assert(spec_is_white_space(s[b]));
                    assert(!spec_is_white_space(s[rs[0]]));
                }
            }
        }
        assert forall|a2: int, b2: int| #[trigger] is_maximal_run(s, a2, b2) && i <= a2 implies exists|k: int|
            0 <= k < starts.len() && #[trigger] starts[k] == a2 && ends[k] == b2 by {
            if a2 < a {
                assert(!spec_stops_at(Stop::NonWhiteSpace, s[a2]));
            } else if a2 == a {
                if b2 < b {
                    assert(!spec_stops_at(Stop::WhiteSpace, s[b2]));
                } else if b2 > b {
                    assert(!spec_is_white_space(s[b]));
                }
                assert(starts[0] == a2 && ends[0] == b2);
            } else {
                if a2 - 1 < b {
                    assert(!spec_stops_at(Stop::WhiteSpace, s[a2 - 1]));
                }
                assert(b <= a2);
                let k = choose|k: int| 0 <= k < rs.len() && #[trigger] rs[k] == a2 && re[k] == b2;
                assert(starts[k + 1] == a2 && ends[k + 1] == b2);
            }
        }
        (starts, ends)
    }
}

/// The words of a text are exactly its maximal runs of characters without
/// whitespace, in order: every word is such a run (no word is cut short or
/// runs into whitespace), the runs of consecutive words do not overlap and
/// come left to right, and every such run of the text is one of the words.
pub proof fn lemma_words_are_maximal_runs(s: Seq<char>) -> (r: (Seq<int>, Seq<int>))
    ensures
        r.0.len() == words_of(s).len(),
        r.1.len() == words_of(s).len(),
        forall|k: int|
            0 <= k < r.0.len() ==> #[trigger] is_maximal_run(s, r.0[k], r.1[k]) && words_of(s)[k]
                == s.subrange(r.0[k], r.1[k]),
        forall|k: int| 0 <= k < r.0.len() - 1 ==> #[trigger] r.1[k] < r.0[k + 1],
        forall|a: int, b: int|
            #[trigger] is_maximal_run(s, a, b) ==> exists|k: int|
                0 <= k < r.0.len() && #[trigger] r.0[k] == a && r.1[k] == b,
{
    let r = lemma_word_runs(s, 0);
    assert forall|a: int, b: int| #[trigger] is_maximal_run(s, a, b) implies exists|k: int|
        0 <= k < r.0.len() && #[trigger] r.0[k] == a && r.1[k] == b by {
        assert(0 <= a);
    }
    r
}

/// The whitespace-separated words of the text `s`.
pub open spec fn words_of(s: Seq<char>) -> Seq<Seq<char>> {
    words_from(s, 0)
}

/// Splits `s` into its whitespace-separated words, as `str::split_whitespace`
/// does.
pub fn split_words(s: &str) -> (words: Vec<String>)
    ensures
        words@.len() == words_of(s@).len(),
        forall|k: int| 0 <= k < words@.len() ==> (#[trigger] words@[k])@ == words_of(s@)[k],
{
    let v = chars_of(s);
    let mut words: Vec<String> = Vec::new();
    let mut i: usize = 0;
    loop
        invariant
            i <= v.len(),
            v@ == s@,
            words@.len() + words_from(v@, i as int).len() == words_of(v@).len(),
            forall|k: int| 0 <= k < words@.len() ==> (#[trigger] words@[k])@ == words_of(v@)[k],
            forall|k: int|
                0 <= k < words_from(v@, i as int).len() ==> words_of(v@)[words@.len() + k]
                    == #[trigger] words_from(v@, i as int)[k],
        decreases v.len() - i,
    {
        let a = find_stop(&v, i, Stop::NonWhiteSpace);
        if a >= v.len() {
            assert(words_from(v@, i as int) =~= Seq::<Seq<char>>::empty());
            return words;
        }
        let b = find_stop(&v, a, Stop::WhiteSpace);
        let word = string_of_range(&v, a, b);
        let ghost rest = words_from(v@, i as int);
        assert(rest == seq![v@.subrange(a as int, b as int)] + words_from(v@, b as int));
        assert(rest[0] == word@);
        assert forall|k: int| 0 <= k < words_from(v@, b as int).len() implies words_of(v@)[words@.len() + 1 + k]
            == #[trigger] words_from(v@, b as int)[k] by {
            assert(rest[k + 1] == words_from(v@, b as int)[k]);
        }
        words.push(word);
        i = b;
    }
}

} // verus!
