//! Warning targets `path:line:column`: splitting a target into its file and
//! line number, picking the line of the file it names, and remembering which
//! targets were already opened.

use vstd::prelude::*;
use crate::chars::spec_is_digit;
use crate::location::{
    bacon_targets_spec, is_chosen_match, is_location_match, is_tail, is_tail_split, lemma_location_target_is,
    location_target, targets_of_lines,
};
use crate::text::{chars_of, is_plain_line, join_lines, lemma_lines_of_join, lines_of, split_lines, string_of_range};

verus! {

/// Why a decimal line number does not read as a `usize`, as
/// `core::num::IntErrorKind` tells it.
#[derive(Clone, Copy, Debug, PartialEq, Eq, Structural)]
pub enum NumberError {
    /// The text is empty.
    Empty,
    /// A character that is not an ASCII digit, or a lone `+`.
    InvalidDigit,
    /// The number does not fit in a `usize`.
    TooLarge,
}

/// Why a warning target cannot be checked.
#[derive(Clone, Copy, Debug, PartialEq, Eq, Structural)]
pub enum LineRefError {
    /// The target holds no `:`.
    NoColon,
    /// The target holds only one `:`.
    NoSecondColon,
    /// The line number does not read as a `usize`.
    BadLineNumber(NumberError),
    /// The line number is 0 or past the last line of the file.
    LineOutOfBounds,
}

/// The text that a failed check of a target reads as.
pub open spec fn spec_error_message(e: LineRefError) -> Seq<char> {
    match e {
        LineRefError::NoColon => "Target format error: could not find colon"@,
        LineRefError::NoSecondColon => "Target format error: could not find second colon"@,
        LineRefError::BadLineNumber(NumberError::Empty) => "cannot parse integer from empty string"@,
        LineRefError::BadLineNumber(NumberError::InvalidDigit) => "invalid digit found in string"@,
        LineRefError::BadLineNumber(NumberError::TooLarge) => "number too large to fit in target type"@,
        LineRefError::LineOutOfBounds => "Line number out of bounds"@,
    }
}

impl LineRefError {
    /// The text this error reads as when it is reported.
    pub fn message(&self) -> (m: &'static str)
        ensures
            m@ == spec_error_message(*self),
    {
        match self {
            LineRefError::NoColon => "Target format error: could not find colon",
            LineRefError::NoSecondColon => "Target format error: could not find second colon",
            LineRefError::BadLineNumber(NumberError::Empty) => "cannot parse integer from empty string",
            LineRefError::BadLineNumber(NumberError::InvalidDigit) => "invalid digit found in string",
            LineRefError::BadLineNumber(NumberError::TooLarge) => "number too large to fit in target type",
            LineRefError::LineOutOfBounds => "Line number out of bounds",
        }
    }
}

/// A target split into the file it names and its line number.
#[derive(Debug)]
pub struct LineRef {
    /// The file path: everything before the second-to-last `:`.
    pub path: String,
    /// The line number, counted from 1.
    pub line: usize,
}

/// The value of the ASCII digit `c`.
pub open spec fn digit_value(c: char) -> int {
    c as int - '0' as int
}

/// `c` is one of `0`-`9`.
pub open spec fn is_ascii_digit(c: char) -> bool {
    '0' <= c && c <= '9'
}

/// Reads the digits `d[i..]` onto the value `acc` read so far, left to right:
/// the first character that is not an ASCII digit, or the first digit that
/// takes the value past `usize::MAX`, decides the error.
pub open spec fn scan_decimal(d: Seq<char>, i: int, acc: nat) -> Result<usize, NumberError>
    decreases d.len() - i,
{
    if i >= d.len() {
        Ok(acc as usize)
    } else if !is_ascii_digit(d[i]) {
        Err(NumberError::InvalidDigit)
    } else {
        let next = acc * 10 + digit_value(d[i]);
        if next > usize::MAX {
            Err(NumberError::TooLarge)
        } else {
            scan_decimal(d, i + 1, next as nat)
        }
    }
}

/// `<usize as FromStr>::from_str`: an optional `+` and then one or more ASCII
/// digits.
pub open spec fn spec_parse_usize(s: Seq<char>) -> Result<usize, NumberError> {
    if s.len() == 0 {
        Err(NumberError::Empty)
    } else if s[0] == '+' {
        if s.len() == 1 {
            Err(NumberError::InvalidDigit)
        } else {
            scan_decimal(s, 1, 0)
        }
    } else {
        scan_decimal(s, 0, 0)
    }
}

/// Reading the digits of `d` from `i` with the accumulator `acc` ends, when
/// it succeeds, in the value that reading `d` onto `acc` and then one more
/// digit `c` extends by that digit.
proof fn lemma_scan_push(d: Seq<char>, i: int, acc: nat, c: char)
    requires
        0 <= i <= d.len(),
        acc <= usize::MAX,
        is_ascii_digit(c),
    ensures
        scan_decimal(d, i, acc) matches Ok(n) ==> scan_decimal(d.push(c), i, acc) == (if n * 10 + (c as int
            - '0' as int) <= usize::MAX {
            Ok::<usize, NumberError>((n * 10 + (c as int - '0' as int)) as usize)
        } else {
            Err::<usize, NumberError>(NumberError::TooLarge)
        }),
        scan_decimal(d, i, acc) == Err::<usize, NumberError>(NumberError::TooLarge) ==> scan_decimal(
            d.push(c),
            i,
            acc,
        ) == Err::<usize, NumberError>(NumberError::TooLarge),
    decreases d.len() - i,
{
    let t = d.push(c);
    if i < d.len() {
        assert(t[i] == d[i]);
        if is_ascii_digit(d[i]) {
            let next = acc * 10 + digit_value(d[i]);
            if next <= usize::MAX {
                lemma_scan_push(d, i + 1, next as nat, c);
            }
        }
    } else {
        assert(t[i] == c);
        let next = acc * 10 + digit_value(c);
        if next <= usize::MAX {
            assert(scan_decimal(t, i + 1, next as nat) == Ok::<usize, NumberError>(next as usize));
        }
    }
}

/// Every character of `s` is one of `0`-`9`.
pub open spec fn all_ascii_digits(s: Seq<char>) -> bool {
    forall|k: int| 0 <= k < s.len() ==> '0' <= #[trigger] s[k] && s[k] <= '9'
}

/// A line number is read as its decimal value, digit by digit: a single digit
/// reads as itself; appending a digit to a number that reads as `n` gives
/// `10 * n` plus that digit, or `TooLarge` when that passes `usize::MAX`; a
/// number too large stays too large; a leading `+` changes nothing; and a text
/// of digits never fails otherwise.
pub proof fn lemma_parse_usize_decimal(s: Seq<char>, c: char)
    requires
        s.len() > 0,
        all_ascii_digits(s),
        '0' <= c && c <= '9',
    ensures
        spec_parse_usize(seq![c]) == Ok::<usize, NumberError>((c as int - '0' as int) as usize),
        spec_parse_usize(s) matches Ok(n) ==> spec_parse_usize(s.push(c)) == (if n * 10 + (c as int - '0' as int)
            <= usize::MAX {
            Ok::<usize, NumberError>((n * 10 + (c as int - '0' as int)) as usize)
        } else {
            Err::<usize, NumberError>(NumberError::TooLarge)
        }),
        spec_parse_usize(s) == Err::<usize, NumberError>(NumberError::TooLarge) ==> spec_parse_usize(s.push(c))
            == Err::<usize, NumberError>(NumberError::TooLarge),
        spec_parse_usize(s) is Ok || spec_parse_usize(s) == Err::<usize, NumberError>(NumberError::TooLarge),
        spec_parse_usize(seq!['+'] + s) == spec_parse_usize(s),
{
    let one = seq![c];
    assert(one[0] == c);
    assert(scan_decimal(one, 1, (c as int - '0' as int) as nat) == Ok::<usize, NumberError>(
        (c as int - '0' as int) as usize,
    ));
    assert(s[0] != '+');
    assert(s.push(c)[0] == s[0]);
    lemma_scan_push(s, 0, 0, c);
    lemma_scan_all_digits(s, 0, 0);
    let p = seq!['+'] + s;
    assert(p[0] == '+');
    lemma_scan_shift(s, 0, 0);
}

/// Reading digits never fails but by `TooLarge`.
proof fn lemma_scan_all_digits(d: Seq<char>, i: int, acc: nat)
    requires
        all_ascii_digits(d),
        0 <= i <= d.len(),
    ensures
        scan_decimal(d, i, acc) is Ok || scan_decimal(d, i, acc) == Err::<usize, NumberError>(NumberError::TooLarge),
    decreases d.len() - i,
{
    if i < d.len() {
        assert('0' <= d[i] && d[i] <= '9');
        let next = acc * 10 + digit_value(d[i]);
        if next <= usize::MAX {
            lemma_scan_all_digits(d, i + 1, next as nat);
        }
    }
}

/// Reading `+` followed by `d` from index `i + 1` is reading `d` from `i`.
proof fn lemma_scan_shift(d: Seq<char>, i: int, acc: nat)
    requires
        0 <= i <= d.len(),
    ensures
        scan_decimal(seq!['+'] + d, i + 1, acc) == scan_decimal(d, i, acc),
    decreases d.len() - i,
{
    let p = seq!['+'] + d;
    if i < d.len() {
        assert(p[i + 1] == d[i]);
        if is_ascii_digit(d[i]) {
            let next = acc * 10 + digit_value(d[i]);
            if next <= usize::MAX {
                lemma_scan_shift(d, i + 1, next as nat);
            }
        }
    }
}

/// Reads `s` as a `usize` the way `str::parse::<usize>` does.
pub fn parse_usize(s: &Vec<char>) -> (r: Result<usize, NumberError>)
    ensures
        r == spec_parse_usize(s@),
{
    if s.len() == 0 {
        return Err(NumberError::Empty);
    }
    let mut i: usize = 0;
    if s[0] == '+' {
        if s.len() == 1 {
            return Err(NumberError::InvalidDigit);
        }
        i = 1;
    }
    let ghost start = i as int;
    let mut acc: usize = 0;
    while i < s.len()
        invariant
            start <= i <= s.len(),
            s.len() > 0,
            start == (if s@[0] == '+' { 1int } else { 0int }),
            s@[0] == '+' ==> s.len() > 1,
            spec_parse_usize(s@) == scan_decimal(s@, i as int, acc as nat),
        decreases s.len() - i,
    {
        let c = s[i];
        if !('0' <= c && c <= '9') {
            return Err(NumberError::InvalidDigit);
        }
        let d = (c as u32 - '0' as u32) as usize;
        assert(d as int == digit_value(c));
        match acc.checked_mul(10) {
            Some(m) => match m.checked_add(d) {
                Some(n) => {
                    acc = n;
                },
                None => {
                    return Err(NumberError::TooLarge);
                },
            },
            None => {
                assert(acc * 10 + d > usize::MAX);
                return Err(NumberError::TooLarge);
            },
        }
        i = i + 1;
    }
    Ok(acc)
}


/// The index of the last `:` in `s[..end]`, as `str::rfind(':')` on that
/// prefix finds it, or `None`.
pub open spec fn last_colon_before(s: Seq<char>, end: int) -> Option<int>
    decreases end,
{
    if end <= 0 {
        None
    } else if s[end - 1] == ':' {
        Some(end - 1)
    } else {
        last_colon_before(s, end - 1)
    }
}

/// What a target splits into: the path before the second-to-last `:` and
/// the line number between the last two, or why it does not split.
pub open spec fn spec_parse_line_ref(t: Seq<char>) -> Result<(Seq<char>, usize), LineRefError> {
    match last_colon_before(t, t.len() as int) {
        None => Err(LineRefError::NoColon),
        Some(last) => match last_colon_before(t, last) {
            None => Err(LineRefError::NoSecondColon),
            Some(second) => match spec_parse_usize(t.subrange(second + 1, last)) {
                Ok(n) => Ok((t.subrange(0, second), n)),
                Err(k) => Err(LineRefError::BadLineNumber(k)),
            },
        },
    }
}

/// The last `:` before `end` in `v`.
fn rfind_colon(v: &Vec<char>, end: usize) -> (r: Option<usize>)
    requires
        end <= v.len(),
    ensures
        r matches Some(i) ==> last_colon_before(v@, end as int) == Some(i as int),
        r is None ==> last_colon_before(v@, end as int) is None,
{
    let mut j = end;
    while j > 0
        invariant
            j <= end <= v.len(),
            last_colon_before(v@, end as int) == last_colon_before(v@, j as int),
        decreases j,
    {
        if v[j - 1] == ':' {
            return Some(j - 1);
        }
        j = j - 1;
    }
    None
}

/// Splits the target `path:line:column` into its path and line number, as
/// the decision whether to open a target does before it reads the file.
pub fn parse_line_ref(target: &str) -> (r: Result<LineRef, LineRefError>)
    ensures
        r matches Ok(lr) ==> spec_parse_line_ref(target@) == Ok::<(Seq<char>, usize), LineRefError>(
            (lr.path@, lr.line),
        ),
        r matches Err(e) ==> spec_parse_line_ref(target@) == Err::<(Seq<char>, usize), LineRefError>(e),
{
    let v = chars_of(target);
    let last = match rfind_colon(&v, v.len()) {
        Some(i) => i,
        None => {
            return Err(LineRefError::NoColon);
        },
    };
    proof {
        lemma_last_colon_in_range(v@, v.len() as int);
    }
    let second = match rfind_colon(&v, last) {
        Some(i) => i,
        None => {
            return Err(LineRefError::NoSecondColon);
        },
    };
    proof {
        lemma_last_colon_in_range(v@, last as int);
    }
    let digits = crate::text::vec_of_range(&v, second + 1, last);
    match parse_usize(&digits) {
        Ok(n) => Ok(LineRef { path: string_of_range(&v, 0, second), line: n }),
        Err(k) => Err(LineRefError::BadLineNumber(k)),
    }
}

/// The `:` that `last_colon_before` finds lies before `end`.
proof fn lemma_last_colon_in_range(s: Seq<char>, end: int)
    ensures
        last_colon_before(s, end) matches Some(i) ==> 0 <= i < end && s[i] == ':',
    decreases end,
{
    if end > 0 && s[end - 1] != ':' {
        lemma_last_colon_in_range(s, end - 1);
    }
}


/// Line `n` (counted from 1) of the text `content`, as `str::lines` splits it,
/// or `LineOutOfBounds` when `n` is 0 or past the last line.
pub open spec fn spec_line_at(content: Seq<char>, n: usize) -> Result<Seq<char>, LineRefError> {
    if n == 0 || n > lines_of(content).len() {
        Err(LineRefError::LineOutOfBounds)
    } else {
        Ok(lines_of(content)[n - 1])
    }
}

/// Line `n` (counted from 1) of the file text `content`.
pub fn line_at(content: &str, n: usize) -> (r: Result<String, LineRefError>)
    ensures
        r matches Ok(l) ==> spec_line_at(content@, n) == Ok::<Seq<char>, LineRefError>(l@),
        r matches Err(e) ==> spec_line_at(content@, n) == Err::<Seq<char>, LineRefError>(e),
{
    let v = chars_of(content);
    let lines = split_lines(&v);
    if n == 0 || n > lines.len() {
        return Err(LineRefError::LineOutOfBounds);
    }
    let line = &lines[n - 1];
    assert(lines@[n - 1]@ == lines_of(v@)[n - 1]);
    assert(line@.subrange(0, line@.len() as int) =~= line@);
    Ok(string_of_range(line, 0, line.len()))
}

/// The targets already opened, each with the text its line had when it was
/// first seen.
pub struct LinesOfConcern {
    entries: Vec<(String, String)>,
}

/// The map that a list of (target, line) entries describes; a later entry
/// for the same target wins.
pub open spec fn entries_map(es: Seq<(String, String)>) -> Map<Seq<char>, Seq<char>>
    decreases es.len(),
{
    if es.len() == 0 {
        Map::empty()
    } else {
        entries_map(es.drop_last()).insert(es.last().0@, es.last().1@)
    }
}

/// The map that a list of entries describes is finite.
proof fn lemma_entries_map_finite(es: Seq<(String, String)>)
    ensures
        entries_map(es).dom().finite(),
    decreases es.len(),
{
    if es.len() > 0 {
        lemma_entries_map_finite(es.drop_last());
    }
}

/// A target is in the map exactly when some entry holds it.
proof fn lemma_entries_map_dom(es: Seq<(String, String)>, k: Seq<char>)
    ensures
        entries_map(es).dom().contains(k) <==> exists|i: int| 0 <= i < es.len() && (#[trigger] es[i]).0@ == k,
    decreases es.len(),
{
    if es.len() > 0 {
        lemma_entries_map_dom(es.drop_last(), k);
        if entries_map(es.drop_last()).dom().contains(k) {
            let i = choose|i: int| 0 <= i < es.drop_last().len() && (#[trigger] es.drop_last()[i]).0@ == k;
            assert(es[i] == es.drop_last()[i]);
        }
        if exists|i: int| 0 <= i < es.len() && (#[trigger] es[i]).0@ == k {
            let i = choose|i: int| 0 <= i < es.len() && (#[trigger] es[i]).0@ == k;
            if i < es.len() - 1 {
                assert(es.drop_last()[i] == es[i]);
            }
        }
    }
}

/// A target is opened when it has not been recorded yet.
pub open spec fn spec_should_open(m: Map<Seq<char>, Seq<char>>, target: Seq<char>) -> bool {
    !m.dom().contains(target)
}

/// The records after checking `target`, whose line reads `line`: a new
/// target is recorded with its line; a known one keeps its first line.
pub open spec fn spec_after_check(m: Map<Seq<char>, Seq<char>>, target: Seq<char>, line: Seq<char>) -> Map<
    Seq<char>,
    Seq<char>,
> {
    if m.dom().contains(target) {
        m
    } else {
        m.insert(target, line)
    }
}

impl View for LinesOfConcern {
    type V = Map<Seq<char>, Seq<char>>;

    closed spec fn view(&self) -> Map<Seq<char>, Seq<char>> {
        entries_map(self.entries@)
    }
}

impl LinesOfConcern {
    /// No target opened yet.
    pub fn new() -> (r: Self)
        ensures
            r@ == Map::<Seq<char>, Seq<char>>::empty(),
            r@.dom().finite(),
    {
        LinesOfConcern { entries: Vec::new() }
    }

    /// Only finitely many targets are ever recorded.
    pub proof fn lemma_finite(&self)
        ensures
            self@.dom().finite(),
    {
        lemma_entries_map_finite(self.entries@);
    }

    /// Whether `target` was already opened.
    pub fn contains(&self, target: &str) -> (b: bool)
        ensures
            b == self@.dom().contains(target@),
    {
        let t = target.to_owned();
        let mut i: usize = 0;
        while i < self.entries.len()
            invariant
                i <= self.entries.len(),
                t@ == target@,
                forall|j: int| 0 <= j < i ==> (#[trigger] self.entries@[j]).0@ != target@,
            decreases self.entries.len() - i,
        {
            if self.entries[i].0 == t {
                proof {
                    lemma_entries_map_dom(self.entries@, target@);
                }
                return true;
            }
            i = i + 1;
        }
        proof {
            lemma_entries_map_dom(self.entries@, target@);
        }
        false
    }

    /// The decision whether to open `target`, whose line now reads
    /// `current_line`: a target seen for the first time is recorded with its
    /// line and opened; a target already recorded is not opened again.
    pub fn should_open(&mut self, target: &str, current_line: &str) -> (b: bool)
        ensures
            b == spec_should_open(old(self)@, target@),
            final(self)@ == spec_after_check(old(self)@, target@, current_line@),
            final(self)@.dom().finite(),
    {
        proof {
            lemma_entries_map_finite(self.entries@);
        }
        if self.contains(target) {
            false
        } else {
            self.entries.push((target.to_owned(), current_line.to_owned()));
            proof {
                assert(self.entries@.drop_last() =~= old(self).entries@);
            }
            true
        }
    }
}

/// The decision for the warning target `target`, whose line number is `n`,
/// given the text `content` of the file it names: a target already recorded
/// is declined and the records stay as they are, whatever the file now holds;
/// a new target is refused when its line does not exist, and otherwise
/// recorded with its line and opened.
pub open spec fn spec_check_line_ref(
    m: Map<Seq<char>, Seq<char>>,
    target: Seq<char>,
    n: usize,
    content: Seq<char>,
) -> (Map<Seq<char>, Seq<char>>, Result<bool, LineRefError>) {
    if m.dom().contains(target) {
        (m, Ok(false))
    } else {
        match spec_line_at(content, n) {
            Err(e) => (m, Err(e)),
            Ok(l) => (m.insert(target, l), Ok(true)),
        }
    }
}

/// The decision for one warning target once its file has been read.
pub fn check_line_ref(concern: &mut LinesOfConcern, target: &str, line_ref: &LineRef, content: &str) -> (r: Result<bool, LineRefError>)
    ensures
        (final(concern)@, r) == spec_check_line_ref(old(concern)@, target@, line_ref.line, content@),
        final(concern)@.dom().finite(),
{
    proof {
        concern.lemma_finite();
    }
    if concern.contains(target) {
        return Ok(false);
    }
    match line_at(content, line_ref.line) {
        Err(e) => Err(e),
        Ok(l) => Ok(concern.should_open(target, l.as_str())),
    }
}

/// A target is opened at most once: once checked, it is recorded, and every
/// later check of it declines to open it and leaves the records as they are.
pub proof fn lemma_target_opened_once(
    m: Map<Seq<char>, Seq<char>>,
    target: Seq<char>,
    first_line: Seq<char>,
    later_line: Seq<char>,
)
    ensures
        spec_after_check(m, target, first_line).dom().contains(target),
        !spec_should_open(spec_after_check(m, target, first_line), target),
        spec_after_check(spec_after_check(m, target, first_line), target, later_line)
            == spec_after_check(m, target, first_line),
{
}

/// A recorded target is declined, whatever its file holds now, and the
/// records stay as they are; once a check has opened a target, every later
/// check of it declines it.
pub proof fn lemma_recorded_target_declined(
    m: Map<Seq<char>, Seq<char>>,
    target: Seq<char>,
    n: usize,
    content: Seq<char>,
    later_n: usize,
    later_content: Seq<char>,
)
    ensures
        m.dom().contains(target) ==> spec_check_line_ref(m, target, n, content) == (
            m,
            Ok::<bool, LineRefError>(false),
        ),
        spec_check_line_ref(m, target, n, content).1 == Ok::<bool, LineRefError>(true) ==> {
            let m1 = spec_check_line_ref(m, target, n, content).0;
            spec_check_line_ref(m1, target, later_n, later_content) == (m1, Ok::<bool, LineRefError>(false))
        },
{
}

/// Line `n` of a text exists exactly when `1 <= n <= ` the number of its
/// lines, and it is then the `n`-th line: for lines joined with line feeds,
/// every line number from 1 to the number of lines gives back that line, and
/// every other number is out of bounds.
pub proof fn lemma_line_at_numbers_lines(ls: Seq<Seq<char>>, n: usize)
    requires
        forall|k: int| 0 <= k < ls.len() ==> is_plain_line(#[trigger] ls[k]),
    ensures
        1 <= n <= ls.len() ==> spec_line_at(join_lines(ls), n) == Ok::<Seq<char>, LineRefError>(ls[n - 1]),
        (n == 0 || n > ls.len()) ==> spec_line_at(join_lines(ls), n) == Err::<Seq<char>, LineRefError>(
            LineRefError::LineOutOfBounds,
        ),
{
    lemma_lines_of_join(ls);
}

/// A new target whose line exists in its file is opened and recorded with
/// that line, whatever its line number.
pub proof fn lemma_new_target_with_existing_line_opened(
    m: Map<Seq<char>, Seq<char>>,
    target: Seq<char>,
    ls: Seq<Seq<char>>,
    n: usize,
)
    requires
        !m.dom().contains(target),
        forall|k: int| 0 <= k < ls.len() ==> is_plain_line(#[trigger] ls[k]),
        1 <= n <= ls.len(),
    ensures
        spec_check_line_ref(m, target, n, join_lines(ls)) == (
            m.insert(target, ls[n - 1]),
            Ok::<bool, LineRefError>(true),
        ),
{
    lemma_line_at_numbers_lines(ls, n);
}

/// A check grows finite records by at most one target, and changes them
/// exactly when it opens the target: keys are never removed and recorded
/// lines never change.
pub proof fn lemma_check_grows_by_at_most_one(
    m: Map<Seq<char>, Seq<char>>,
    target: Seq<char>,
    n: usize,
    content: Seq<char>,
)
    requires
        m.dom().finite(),
    ensures
        spec_check_line_ref(m, target, n, content).0.dom().finite(),
        spec_check_line_ref(m, target, n, content).0.dom().len() <= m.dom().len() + 1,
        (spec_check_line_ref(m, target, n, content).0 != m) <==> (spec_check_line_ref(m, target, n, content).1
            == Ok::<bool, LineRefError>(true)),
        forall|k: Seq<char>| #[trigger] m.dom().contains(k) ==> spec_check_line_ref(m, target, n, content).0.dom().contains(k)
            && spec_check_line_ref(m, target, n, content).0[k] == m[k],
{
    let r = spec_check_line_ref(m, target, n, content);
    if r.1 == Ok::<bool, LineRefError>(true) {
        assert(!m.dom().contains(target));
        assert(r.0.dom().contains(target));
        assert(r.0 != m);
    }
}

/// Checking a target never forgets or changes what was recorded before: each
/// recorded target keeps the line it had when it was first seen.
pub proof fn lemma_records_kept(
    m: Map<Seq<char>, Seq<char>>,
    target: Seq<char>,
    line: Seq<char>,
    other: Seq<char>,
)
    requires
        m.dom().contains(other),
    ensures
        spec_after_check(m, target, line).dom().contains(other),
        spec_after_check(m, target, line)[other] == m[other],
{
}

/// The `:` at `i` with no `:` in `s[i + 1..end]` is the last one before `end`.
proof fn lemma_last_colon_is(s: Seq<char>, i: int, end: int)
    requires
        0 <= i < end <= s.len(),
        s[i] == ':',
        forall|k: int| i < k < end ==> s[k] != ':',
    ensures
        last_colon_before(s, end) == Some(i),
    decreases end - i,
{
    if end - 1 > i {
        lemma_last_colon_is(s, i, end - 1);
    }
}

/// The location a line gives back names the file and the line that the
/// check then reads: splitting the location `path:line:column` found in `s`
/// yields exactly the path and the line number digits that the location
/// pattern matched.
pub proof fn lemma_location_names_file_and_line(s: Seq<char>, q: int, p: int, c: int, e: int)
    requires
        is_chosen_match(s, q, p, e),
        is_tail_split(s, p, c, e),
    ensures
        location_target(s) == Some(s.subrange(q, e)),
        spec_parse_line_ref(s.subrange(q, e)) == match spec_parse_usize(s.subrange(p + 1, c)) {
            Ok(n) => Ok::<(Seq<char>, usize), LineRefError>((s.subrange(q, p), n)),
            Err(k) => Err::<(Seq<char>, usize), LineRefError>(LineRefError::BadLineNumber(k)),
        },
{
    lemma_location_target_is(s, q, p, e);
    let t = s.subrange(q, e);
    assert(!spec_is_digit(':'));
    assert forall|k: int| c - q < k < e - q implies t[k] != ':' by {
        assert(t[k] == s[k + q]);
        assert(spec_is_digit(s[k + q]));
    }
    lemma_last_colon_is(t, c - q, e - q);
    assert forall|k: int| p - q < k < c - q implies t[k] != ':' by {
        assert(t[k] == s[k + q]);
        assert(spec_is_digit(s[k + q]));
    }
    lemma_last_colon_is(t, p - q, c - q);
    assert(t.subrange(p - q + 1, c - q) =~= s.subrange(p + 1, c));
    assert(t.subrange(0, p - q) =~= s.subrange(q, p));
}


/// Every location of a line splits into a path and a line number: the check
/// never finds it short of a colon.
pub proof fn lemma_location_splits(s: Seq<char>)
    requires
        location_target(s) is Some,
    ensures
        spec_parse_line_ref(location_target(s).unwrap()) matches Ok(_) || spec_parse_line_ref(
            location_target(s).unwrap(),
        ) matches Err(LineRefError::BadLineNumber(_)),
{
    let (q, p, e) = choose|q: int, p: int, e: int| is_chosen_match(s, q, p, e);
    assert(is_location_match(s, q, p, e));
    assert(is_tail(s, p, e));
    let c = choose|c: int| is_tail_split(s, p, c, e);
    lemma_location_names_file_and_line(s, q, p, c, e);
}

/// Each location listed for some lines is the location of one of them.
proof fn lemma_targets_from_lines(ls: Seq<Seq<char>>, i: int)
    requires
        0 <= i < targets_of_lines(ls).len(),
    ensures
        exists|j: int| 0 <= j < ls.len() && location_target(#[trigger] ls[j]) == Some(targets_of_lines(ls)[i]),
    decreases ls.len(),
{
    let earlier = targets_of_lines(ls.drop_last());
    if i < earlier.len() {
        lemma_targets_from_lines(ls.drop_last(), i);
        let j = choose|j: int| 0 <= j < ls.drop_last().len() && location_target(#[trigger] ls.drop_last()[j]) == Some(earlier[i]);
        assert(ls[j] == ls.drop_last()[j]);
    } else {
        assert(location_target(ls[ls.len() - 1]) == Some(targets_of_lines(ls)[i]));
    }
}

/// Every location listed in a bacon locations file splits into a path and a
/// line number when it is checked; only the number itself can be refused.
pub proof fn lemma_listed_targets_split(content: Seq<char>, i: int)
    requires
        0 <= i < bacon_targets_spec(content).len(),
    ensures
        spec_parse_line_ref(bacon_targets_spec(content)[i]) matches Ok(_) || spec_parse_line_ref(
            bacon_targets_spec(content)[i],
        ) matches Err(LineRefError::BadLineNumber(_)),
{
    let ls = lines_of(content);
    lemma_targets_from_lines(ls, i);
    let j = choose|j: int| 0 <= j < ls.len() && location_target(#[trigger] ls[j]) == Some(targets_of_lines(ls)[i]);
    lemma_location_splits(ls[j]);
}

} // verus!
