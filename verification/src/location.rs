//! The bacon location line format.
//!
//! A line of a bacon locations file reads `kind path:line:column message`,
//! for instance `warning src/main.rs:23:17 unused variable`. The leading kind
//! word and the message are optional. The location of a line is the text
//! `path:line:column` that the pattern
//! `^(?:\S+\s+)?(.+?):(\d+):(\d+)\b` captures in its three groups, taken
//! with the regex crate's leftmost-first preferences: the kind word is taken
//! when it can be, with as much whitespace after it as can be; the path is
//! as short as it can be; the column is as long as it can be.

use vstd::prelude::*;
use crate::chars::{class_flags, spec_is_digit, spec_is_white_space, spec_is_word, RegexClass};
use crate::text::{
    chars_of, ends_with_line_end, find_stop, lemma_lines_of_concat, lemma_lines_of_one_line, lines_of,
    split_lines, string_of_range, views, Stop, spec_stops_at,
};

verus! {

/// `s[i..j]` is a non-empty run of `\d` characters.
pub open spec fn is_digit_run(s: Seq<char>, i: int, j: int) -> bool {
    &&& 0 <= i < j <= s.len()
    &&& forall|k: int| i <= k < j ==> spec_is_digit(#[trigger] s[k])
}

/// `\b` holds at index `e` right after a digit: the text ends there or the next
/// character is not a word character.
pub open spec fn boundary_after(s: Seq<char>, e: int) -> bool {
    e == s.len() || !spec_is_word(s[e])
}

/// `s[p..e]` reads `:line:column` with the second colon at `c`, followed by a
/// word boundary.
pub open spec fn is_tail_split(s: Seq<char>, p: int, c: int, e: int) -> bool {
    &&& 0 <= p < s.len()
    &&& s[p] == ':'
    &&& is_digit_run(s, p + 1, c)
    &&& c < s.len()
    &&& s[c] == ':'
    &&& is_digit_run(s, c + 1, e)
    &&& boundary_after(s, e)
}

/// `s[p..e]` reads `:line:column` followed by a word boundary.
pub open spec fn is_tail(s: Seq<char>, p: int, e: int) -> bool {
    exists|c: int| is_tail_split(s, p, c, e)
}

/// No line feed in `s[i..j]` (the pattern's `.` does not match `\n`).
pub open spec fn newline_free(s: Seq<char>, i: int, j: int) -> bool {
    forall|k: int| i <= k < j ==> s[k] != '\n'
}

/// `s[..k]` is a run of non-whitespace and `s[k..q]` a run of whitespace,
/// both non-empty.
pub open spec fn is_label_split(s: Seq<char>, k: int, q: int) -> bool {
    &&& 1 <= k < q <= s.len()
    &&& forall|i: int| 0 <= i < k ==> !spec_is_white_space(#[trigger] s[i])
    &&& forall|i: int| k <= i < q ==> spec_is_white_space(#[trigger] s[i])
}

/// `s[..q]` is a kind word followed by whitespace: `\S+\s+`.
pub open spec fn is_label_end(s: Seq<char>, q: int) -> bool {
    exists|k: int| #[trigger] is_label_split(s, k, q)
}

/// One way for the pattern to match `s`: the path runs from `q` to `p`, the
/// line and column from `p` to `e`; `q` is 0 when no kind word is taken.
pub open spec fn is_location_match(s: Seq<char>, q: int, p: int, e: int) -> bool {
    &&& (q == 0 || is_label_end(s, q))
    &&& q < p
    &&& newline_free(s, q, p)
    &&& is_tail(s, p, e)
}

/// The match `(q1, p1, e1)` comes before `(q2, p2, e2)` in the pattern's
/// preference order: longer kind prefix first, then shorter path, then longer
/// column.
pub open spec fn ranks_before(q1: int, p1: int, e1: int, q2: int, p2: int, e2: int) -> bool {
    ||| q1 > q2
    ||| (q1 == q2 && p1 < p2)
    ||| (q1 == q2 && p1 == p2 && e1 > e2)
}

/// The match that the pattern reports for `s`: no other match comes before it.
pub open spec fn is_chosen_match(s: Seq<char>, q: int, p: int, e: int) -> bool {
    &&& is_location_match(s, q, p, e)
    &&& forall|q2: int, p2: int, e2: int|
        #[trigger] is_location_match(s, q2, p2, e2) ==> !ranks_before(q2, p2, e2, q, p, e)
}

/// The location `path:line:column` of the line `s`, if the line has one.
pub open spec fn location_target(s: Seq<char>) -> Option<Seq<char>> {
    if exists|q: int, p: int, e: int| is_chosen_match(s, q, p, e) {
        let (q, p, e) = choose|q: int, p: int, e: int| is_chosen_match(s, q, p, e);
        Some(s.subrange(q, e))
    } else {
        None
    }
}

/// At most one match is the chosen one.
pub proof fn lemma_chosen_unique(s: Seq<char>, q: int, p: int, e: int, q2: int, p2: int, e2: int)
    requires
        is_chosen_match(s, q, p, e),
        is_chosen_match(s, q2, p2, e2),
    ensures
        q == q2 && p == p2 && e == e2,
{
    assert(is_location_match(s, q2, p2, e2));
    assert(is_location_match(s, q, p, e));
}

/// The chosen match determines the location.
pub proof fn lemma_location_target_is(s: Seq<char>, q: int, p: int, e: int)
    requires
        is_chosen_match(s, q, p, e),
    ensures
        location_target(s) == Some(s.subrange(q, e)),
{
    let (q1, p1, e1) = choose|q: int, p: int, e: int| is_chosen_match(s, q, p, e);
    lemma_chosen_unique(s, q, p, e, q1, p1, e1);
}

/// `digits` and `words` tell, for each character of `v`, whether it is in
/// `\d` and in `\w`.
pub open spec fn classes_of(v: Seq<char>, digits: Seq<bool>, words: Seq<bool>) -> bool {
    &&& digits.len() == v.len()
    &&& words.len() == v.len()
    &&& forall|i: int| 0 <= i < v.len() ==> digits[i] == spec_is_digit(#[trigger] v[i])
    &&& forall|i: int| 0 <= i < v.len() ==> words[i] == spec_is_word(#[trigger] v[i])
}

/// The end of the run of `\d` characters that starts at `i`.
fn digit_run_end(v: &Vec<char>, digits: &Vec<bool>, i: usize) -> (j: usize)
    requires
        i <= v.len(),
        digits@.len() == v@.len(),
        forall|k: int| 0 <= k < v@.len() ==> digits@[k] == spec_is_digit(#[trigger] v@[k]),
    ensures
        i <= j <= v.len(),
        forall|k: int| i <= k < j ==> spec_is_digit(#[trigger] v@[k]),
        j < v.len() ==> !spec_is_digit(v@[j as int]),
{
    let mut j = i;
    while j < v.len() && digits[j]
        invariant
            i <= j <= v.len(),
            digits@.len() == v@.len(),
            forall|k: int| 0 <= k < v@.len() ==> digits@[k] == spec_is_digit(#[trigger] v@[k]),
            forall|k: int| i <= k < j ==> spec_is_digit(#[trigger] v@[k]),
        decreases v.len() - j,
    {
        j = j + 1;
    }
    j
}

/// Whether `:line:column` followed by a word boundary starts at `p`; if so,
/// the end of the longest such column.
fn tail_at(v: &Vec<char>, digits: &Vec<bool>, words: &Vec<bool>, p: usize) -> (r: Option<usize>)
    requires
        classes_of(v@, digits@, words@),
    ensures
        r matches Some(e) ==> is_tail(v@, p as int, e as int) && forall|e2: int|
            #[trigger] is_tail(v@, p as int, e2) ==> e2 <= e,
        r is None ==> forall|e2: int| !#[trigger] is_tail(v@, p as int, e2),
{
    if p >= v.len() || v[p] != ':' {
        return None;
    }
    let c = digit_run_end(v, digits, p + 1);
    if c == p + 1 || c >= v.len() || v[c] != ':' {
        assert forall|e2: int| !#[trigger] is_tail(v@, p as int, e2) by {
            if is_tail(v@, p as int, e2) {
                let c2 = choose|c2: int| is_tail_split(v@, p as int, c2, e2);
                if c2 < c {
                    assert(spec_is_digit(v@[c2]));
                } else if c2 > c {
                    assert(spec_is_digit(v@[c as int]));
                }
            }
        }
        return None;
    }
    assert(!spec_is_digit(':'));
    let emax = digit_run_end(v, digits, c + 1);
    let ghost cc = c as int;
    // the second colon of any tail at p is c
    assert forall|c2: int, e2: int| is_tail_split(v@, p as int, c2, e2) implies c2 == cc && e2 <= emax by {
        if c2 < cc {
            assert(spec_is_digit(v@[c2]));
        } else if c2 > cc {
            assert(spec_is_digit(v@[cc]));
        }
        if e2 > emax {
            assert(spec_is_digit(v@[emax as int]));
        }
    }
    let mut e = emax;
    while e > c + 1
        invariant
            c + 1 <= e <= emax <= v.len(),
            c < v.len(),
            cc == c as int,
            v@[cc] == ':',
            is_digit_run(v@, p + 1, cc),
            0 <= p < v.len(),
            v@[p as int] == ':',
            forall|k: int| c + 1 <= k < emax ==> spec_is_digit(#[trigger] v@[k]),
            forall|c2: int, e2: int| is_tail_split(v@, p as int, c2, e2) ==> c2 == cc && e2 <= emax,
            forall|e2: int| e < e2 <= emax ==> !#[trigger] boundary_after(v@, e2),
            classes_of(v@, digits@, words@),
        decreases e,
    {
        if e == v.len() || !words[e] {
            assert(is_tail_split(v@, p as int, cc, e as int));
            assert forall|e2: int| #[trigger] is_tail(v@, p as int, e2) implies e2 <= e by {
                let c2 = choose|c2: int| is_tail_split(v@, p as int, c2, e2);
                assert(boundary_after(v@, e2));
            }
            return Some(e);
        }
        assert(!boundary_after(v@, e as int));
        e = e - 1;
    }
    assert forall|e2: int| !#[trigger] is_tail(v@, p as int, e2) by {
        if is_tail(v@, p as int, e2) {
            let c2 = choose|c2: int| is_tail_split(v@, p as int, c2, e2);
            assert(boundary_after(v@, e2));
        }
    }
    None
}


/// The shortest path starting at `q` that is followed by `:line:column`, and
/// the end of the longest column after it.
fn shortest_path_from(v: &Vec<char>, digits: &Vec<bool>, words: &Vec<bool>, q: usize) -> (r: Option<(usize, usize)>)
    requires
        classes_of(v@, digits@, words@),
    ensures
        r matches Some((p, e)) ==> {
            &&& q < p
            &&& newline_free(v@, q as int, p as int)
            &&& is_tail(v@, p as int, e as int)
            &&& forall|e2: int| #[trigger] is_tail(v@, p as int, e2) ==> e2 <= e
            &&& forall|p2: int, e2: int|
                q < p2 < p && newline_free(v@, q as int, p2) ==> !#[trigger] is_tail(v@, p2, e2)
        },
        r is None ==> forall|p2: int, e2: int|
            q < p2 && newline_free(v@, q as int, p2) ==> !#[trigger] is_tail(v@, p2, e2),
{
    if q >= v.len() {
        return None;
    }
    let mut p = q + 1;
    while p < v.len()
        invariant
            q < p <= v.len(),
            newline_free(v@, q as int, p - 1),
            forall|p2: int, e2: int|
                q < p2 < p && newline_free(v@, q as int, p2) ==> !#[trigger] is_tail(v@, p2, e2),
            classes_of(v@, digits@, words@),
        decreases v.len() - p,
    {
        if v[p - 1] == '\n' {
            assert forall|p2: int, e2: int|
                q < p2 && newline_free(v@, q as int, p2) implies !#[trigger] is_tail(v@, p2, e2) by {
                if p2 >= p {
                    assert(v@[p - 1] != '\n');
                }
            }
            return None;
        }
        match tail_at(v, digits, words, p) {
            Some(e) => {
                return Some((p, e));
            },
            None => {},
        }
        p = p + 1;
    }
    None
}

/// The end of the kind word of `s` and the end of the whitespace after it.
fn label_bounds(v: &Vec<char>) -> (r: Option<(usize, usize)>)
    ensures
        r matches Some((k, j)) ==> 1 <= k < j <= v.len() && forall|q: int|
            #[trigger] is_label_end(v@, q) <==> k < q <= j,
        r is None ==> forall|q: int| !#[trigger] is_label_end(v@, q),
{
    let k = find_stop(v, 0, Stop::WhiteSpace);
    if k == 0 || k >= v.len() {
        assert forall|q: int| !#[trigger] is_label_end(v@, q) by {
            if is_label_end(v@, q) {
                let k2 = choose|k2: int| #[trigger] is_label_split(v@, k2, q);
                if k == 0 {
                    assert(spec_stops_at(Stop::WhiteSpace, v@[0]));
                    assert(!spec_is_white_space(v@[0]));
                } else {
                    assert(spec_is_white_space(v@[k2]));
                    assert(!spec_stops_at(Stop::WhiteSpace, v@[k2]));
                }
            }
        }
        return None;
    }
    let j = find_stop(v, k, Stop::NonWhiteSpace);
    assert(spec_stops_at(Stop::WhiteSpace, v@[k as int]));
    assert forall|q: int| #[trigger] is_label_end(v@, q) <==> k < q <= j by {
        if is_label_end(v@, q) {
            let k2 = choose|k2: int| #[trigger] is_label_split(v@, k2, q);
            if k2 < k {
                assert(spec_is_white_space(v@[k2]));
                assert(!spec_stops_at(Stop::WhiteSpace, v@[k2]));
            } else if k2 > k {
                assert(!spec_is_white_space(v@[k as int]));
            }
            if q > j {
                assert(spec_is_white_space(v@[j as int]));
                assert(spec_stops_at(Stop::NonWhiteSpace, v@[j as int]));
            }
        }
        if k < q <= j {
            assert forall|i: int| 0 <= i < k implies !spec_is_white_space(#[trigger] v@[i]) by {
                assert(!spec_stops_at(Stop::WhiteSpace, v@[i]));
            }
            assert forall|i: int| k <= i < q implies spec_is_white_space(#[trigger] v@[i]) by {
                assert(!spec_stops_at(Stop::NonWhiteSpace, v@[i]));
            }
            assert(is_label_split(v@, k as int, q));
        }
    }
    Some((k, j))
}

/// The chosen match of the location pattern in `v`: start of the path, end of
/// the path, end of the column.
fn chosen_match(v: &Vec<char>) -> (r: Option<(usize, usize, usize)>)
    ensures
        r matches Some((q, p, e)) ==> is_chosen_match(v@, q as int, p as int, e as int),
        r is None ==> forall|q: int, p: int, e: int| !#[trigger] is_location_match(v@, q, p, e),
{
    let digits = class_flags(v, RegexClass::Digit);
    let words = class_flags(v, RegexClass::Word);
    let bounds = label_bounds(v);
    if let Some((k, j)) = bounds {
        let mut q = j;
        while q > k
            invariant
                1 <= k <= q <= j <= v.len(),
                forall|q2: int| #[trigger] is_label_end(v@, q2) <==> k < q2 <= j,
                forall|q2: int, p2: int, e2: int|
                    q < q2 <= j ==> !#[trigger] is_location_match(v@, q2, p2, e2),
                classes_of(v@, digits@, words@),
            decreases q,
        {
            match shortest_path_from(v, &digits, &words, q) {
                Some((p, e)) => {
                    assert(is_label_end(v@, q as int));
                    assert(is_location_match(v@, q as int, p as int, e as int));
                    assert forall|q2: int, p2: int, e2: int| #[trigger]
                        is_location_match(v@, q2, p2, e2) implies !ranks_before(
                        q2,
                        p2,
                        e2,
                        q as int,
                        p as int,
                        e as int,
                    ) by {
                        if q2 == q && p2 == p {
                            assert(is_tail(v@, p2, e2));
                        }
                    }
                    return Some((q, p, e));
                },
                None => {},
            }
            q = q - 1;
        }
    }
    match shortest_path_from(v, &digits, &words, 0) {
        Some((p, e)) => {
            assert(is_location_match(v@, 0, p as int, e as int));
            assert forall|q2: int, p2: int, e2: int| #[trigger]
                is_location_match(v@, q2, p2, e2) implies !ranks_before(
                q2,
                p2,
                e2,
                0,
                p as int,
                e as int,
            ) by {
                if q2 != 0 {
                    assert(is_label_end(v@, q2));
                }
                if q2 == 0 && p2 == p {
                    assert(is_tail(v@, p2, e2));
                }
            }
            Some((0, p, e))
        },
        None => {
            assert forall|q2: int, p2: int, e2: int| !#[trigger] is_location_match(v@, q2, p2, e2) by {
                if q2 != 0 && is_location_match(v@, q2, p2, e2) {
                    assert(is_label_end(v@, q2));
                }
            }
            None
        },
    }
}


/// The location of the line whose characters are `v`.
fn location_of_chars(v: &Vec<char>) -> (r: Option<String>)
    ensures
        r matches Some(t) ==> location_target(v@) == Some(t@),
        r is None ==> location_target(v@) is None,
{
    match chosen_match(v) {
        Some((q, p, e)) => {
            proof {
                lemma_location_target_is(v@, q as int, p as int, e as int);
            }
            Some(string_of_range(v, q, e))
        },
        None => None,
    }
}

/// The location `path:line:column` of one line of a bacon locations file, or
/// `None` when the line holds none.
pub fn location_of_line(line: &str) -> (r: Option<String>)
    ensures
        r matches Some(t) ==> location_target(line@) == Some(t@),
        r is None ==> location_target(line@) is None,
{
    let v = chars_of(line);
    location_of_chars(&v)
}

/// The locations of the lines `ls`, in order, skipping lines that hold none.
pub open spec fn targets_of_lines(ls: Seq<Seq<char>>) -> Seq<Seq<char>>
    decreases ls.len(),
{
    if ls.len() == 0 {
        seq![]
    } else {
        let earlier = targets_of_lines(ls.drop_last());
        match location_target(ls.last()) {
            Some(t) => earlier.push(t),
            None => earlier,
        }
    }
}

/// The locations that a bacon locations file with the text `content` lists,
/// in the order of its lines.
pub open spec fn bacon_targets_spec(content: Seq<char>) -> Seq<Seq<char>> {
    targets_of_lines(lines_of(content))
}

/// The locations `path:line:column` listed in the text of a bacon locations
/// file, one per line that holds one, in the order of the lines.
pub fn bacon_targets(content: &str) -> (targets: Vec<String>)
    ensures
        views(targets@) == bacon_targets_spec(content@),
{
    let v = chars_of(content);
    let lines = split_lines(&v);
    let ghost ls = lines_of(content@);
    let mut targets: Vec<String> = Vec::new();
    let mut i: usize = 0;
    while i < lines.len()
        invariant
            i <= lines.len() == ls.len(),
            ls == lines_of(content@),
            forall|k: int| 0 <= k < lines@.len() ==> (#[trigger] lines@[k])@ == ls[k],
            views(targets@) == targets_of_lines(ls.take(i as int)),
        decreases lines.len() - i,
    {
        assert(ls.take(i + 1).drop_last() =~= ls.take(i as int));
        assert(ls.take(i + 1).last() == lines@[i as int]@);
        match location_of_chars(&lines[i]) {
            Some(t) => {
                targets.push(t);
            },
            None => {},
        }
        assert(views(targets@) =~= targets_of_lines(ls.take(i + 1)));
        i = i + 1;
    }
    assert(ls.take(ls.len() as int) =~= ls);
    targets
}


/// The documented line format `kind path:line:column message` gives back
/// `path:line:column`: for a kind word without whitespace, one space, a path
/// without whitespace, colons or line feeds, line and column made of ASCII
/// digits, and a message that is empty or starts with a space, the location
/// of the line is exactly the path, the line and the column.
pub proof fn lemma_warning_line_location(
    k: Seq<char>,
    path: Seq<char>,
    d1: Seq<char>,
    d2: Seq<char>,
    m: Seq<char>,
)
    requires
        k.len() > 0,
        forall|i: int| 0 <= i < k.len() ==> !spec_is_white_space(#[trigger] k[i]),
        path.len() > 0,
        forall|i: int|
            0 <= i < path.len() ==> !spec_is_white_space(#[trigger] path[i]) && path[i] != ':' && path[i] != '\n',
        d1.len() > 0,
        forall|i: int| 0 <= i < d1.len() ==> '0' <= #[trigger] d1[i] && d1[i] <= '9',
        d2.len() > 0,
        forall|i: int| 0 <= i < d2.len() ==> '0' <= #[trigger] d2[i] && d2[i] <= '9',
        m.len() == 0 || m[0] == ' ',
    ensures
        location_target(k + seq![' '] + (path + seq![':'] + d1 + seq![':'] + d2) + m) == Some(
            path + seq![':'] + d1 + seq![':'] + d2,
        ),
{
    let t = path + seq![':'] + d1 + seq![':'] + d2;
    let s = k + seq![' '] + t + m;
    let q: int = k.len() + 1int;
    let p: int = q + path.len();
    let c: int = p + 1 + d1.len();
    let e: int = c + 1 + d2.len();
    assert(t.len() == path.len() + d1.len() + d2.len() + 2);
    assert(s.len() == q + t.len() + m.len());
    assert(e == q + t.len());
    // where each part lies in the line
    assert forall|i: int| 0 <= i < k.len() implies s[i] == k[i] by {}
    assert(s[k.len() as int] == ' ');
    assert forall|j: int| 0 <= j < t.len() implies s[q + j] == t[j] by {}
    assert forall|j: int| 0 <= j < m.len() implies s[e + j] == m[j] by {}
    assert forall|j: int| 0 <= j < path.len() implies t[j] == path[j] by {}
    assert(t[path.len() as int] == ':');
    assert forall|j: int| 0 <= j < d1.len() implies t[path.len() + 1 + j] == d1[j] by {}
    assert(t[path.len() + 1 + d1.len() as int] == ':');
    assert forall|j: int| 0 <= j < d2.len() implies t[path.len() + 2 + d1.len() + j] == d2[j] by {}
    // the character classes of the parts
    assert forall|j: int| q <= j < p implies !spec_is_white_space(#[trigger] s[j]) && s[j] != ':' && s[j]
        != '\n' by {
        assert(s[j] == t[j - q]);
        assert(t[j - q] == path[j - q]);
    }
    assert(s[p] == ':') by {
        assert(s[p] == t[path.len() as int]);
    }
    assert forall|j: int| p + 1 <= j < c implies spec_is_digit(#[trigger] s[j]) by {
        assert(s[j] == t[j - q]);
        assert(t[j - q] == d1[j - p - 1]);
        assert('0' <= d1[j - p - 1] && d1[j - p - 1] <= '9');
    }
    assert(s[c] == ':') by {
        assert(s[c] == t[path.len() + 1 + d1.len() as int]);
    }
    assert forall|j: int| c + 1 <= j < e implies spec_is_digit(#[trigger] s[j]) by {
        assert(s[j] == t[j - q]);
        assert(t[j - q] == d2[j - c - 1]);
        assert('0' <= d2[j - c - 1] && d2[j - c - 1] <= '9');
    }
    if e < s.len() {
        assert(s[e] == m[0]);
        assert(s[e] == ' ');
    }
    assert(!spec_is_digit(':'));
    assert(!spec_is_digit(' '));
    assert(!spec_is_word(' '));
    // the match
    assert(is_tail_split(s, p, c, e));
    assert(is_tail(s, p, e));
    assert forall|i: int| 0 <= i < k.len() implies !spec_is_white_space(#[trigger] s[i]) by {
        assert(s[i] == k[i]);
    }
    assert(is_label_split(s, k.len() as int, q));
    assert(is_label_end(s, q));
    assert(is_location_match(s, q, p, e));
    // no other match comes before it
    assert forall|q2: int, p2: int, e2: int| #[trigger]
        is_location_match(s, q2, p2, e2) implies !ranks_before(q2, p2, e2, q, p, e) by {
        if q2 > q {
            assert(is_label_end(s, q2));
            let k2 = choose|k2: int| #[trigger] is_label_split(s, k2, q2);
            if k2 < k.len() {
                assert(spec_is_white_space(s[k2]));
            } else if k2 > k.len() {
                assert(!spec_is_white_space(s[k.len() as int]));
            }
            assert(spec_is_white_space(s[q]));
        } else if q2 == q && p2 < p {
            let c2 = choose|c2: int| is_tail_split(s, p2, c2, e2);
            assert(s[p2] == ':');
        } else if q2 == q && p2 == p && e2 > e {
            let c2 = choose|c2: int| is_tail_split(s, p2, c2, e2);
            if c2 < c {
                assert(spec_is_digit(s[c2]));
            } else if c2 > c {
                assert(spec_is_digit(s[c]));
            }
            assert(spec_is_digit(s[e]));
        }
    }
    assert(is_chosen_match(s, q, p, e));
    lemma_location_target_is(s, q, p, e);
    assert(s.subrange(q, e) =~= t);
}

/// The locations of two runs of lines are those of each run in turn.
proof fn lemma_targets_of_lines_concat(x: Seq<Seq<char>>, y: Seq<Seq<char>>)
    ensures
        targets_of_lines(x + y) == targets_of_lines(x) + targets_of_lines(y),
    decreases y.len(),
{
    if y.len() == 0 {
        assert(x + y =~= x);
        assert(targets_of_lines(x) + targets_of_lines(y) =~= targets_of_lines(x));
    } else {
        assert((x + y).drop_last() =~= x + y.drop_last());
        assert((x + y).last() == y.last());
        lemma_targets_of_lines_concat(x, y.drop_last());
        match location_target(y.last()) {
            Some(t) => {
                assert(targets_of_lines(x + y) =~= targets_of_lines(x) + targets_of_lines(y));
            },
            None => {},
        }
    }
}

/// The locations listed in two texts joined after a line end are those of
/// each text in turn.
pub proof fn lemma_bacon_targets_concat(a: Seq<char>, b: Seq<char>)
    requires
        ends_with_line_end(a),
    ensures
        bacon_targets_spec(a + b) == bacon_targets_spec(a) + bacon_targets_spec(b),
{
    lemma_lines_of_concat(a, b);
    lemma_targets_of_lines_concat(lines_of(a), lines_of(b));
}

/// A line that holds no location adds nothing: inserting the line `x` (with
/// its line feed) between two texts, where the first ends with a line end,
/// leaves the listed locations as they are.
pub proof fn lemma_line_without_location_adds_nothing(a: Seq<char>, x: Seq<char>, b: Seq<char>)
    requires
        ends_with_line_end(a),
        forall|k: int| 0 <= k < x.len() ==> x[k] != '\n',
        x.len() == 0 || x[x.len() - 1] != '\r',
        location_target(x) is None,
    ensures
        bacon_targets_spec(a + x.push('\n') + b) == bacon_targets_spec(a + b),
{
    let w = x.push('\n');
    assert(ends_with_line_end(a + w));
    assert(ends_with_line_end(w));
    lemma_bacon_targets_concat(a + w, b);
    lemma_bacon_targets_concat(a, w);
    lemma_bacon_targets_concat(a, b);
    lemma_lines_of_one_line(x);
    assert(seq![x].drop_last() =~= Seq::<Seq<char>>::empty());
    assert(targets_of_lines(Seq::<Seq<char>>::empty()) =~= Seq::<Seq<char>>::empty());
    assert(seq![x].last() == x);
    assert(targets_of_lines(seq![x]) =~= Seq::<Seq<char>>::empty());
    assert(bacon_targets_spec(w) =~= Seq::<Seq<char>>::empty());
    assert(bacon_targets_spec(a) + bacon_targets_spec(w) =~= bacon_targets_spec(a));
}

} // verus!
