//! Character classes used by the bacon location line format.

use vstd::prelude::*;

verus! {

/// Unicode `White_Space` property (the class `\s` of the regex syntax and the
/// class that `char::is_whitespace` tests).
pub open spec fn spec_is_white_space(c: char) -> bool {
    ||| ('\u{9}' <= c && c <= '\u{d}')
    ||| c == ' '
    ||| c == '\u{85}'
    ||| c == '\u{a0}'
    ||| c == '\u{1680}'
    ||| ('\u{2000}' <= c && c <= '\u{200a}')
    ||| c == '\u{2028}'
    ||| c == '\u{2029}'
    ||| c == '\u{202f}'
    ||| c == '\u{205f}'
    ||| c == '\u{3000}'
}

/// Whether `c` has the Unicode `White_Space` property.
pub fn is_white_space(c: char) -> (b: bool)
    ensures
        b == spec_is_white_space(c),
{
    ('\u{9}' <= c && c <= '\u{d}') || c == ' ' || c == '\u{85}' || c == '\u{a0}' || c == '\u{1680}'
        || ('\u{2000}' <= c && c <= '\u{200a}') || c == '\u{2028}' || c == '\u{2029}' || c
        == '\u{202f}' || c == '\u{205f}' || c == '\u{3000}'
}


/// What `regex::Regex::new(pattern)` followed by `is_match` on the one-character
/// text `c` answers.
pub uninterp spec fn regex_char_match(pattern: Seq<char>, c: char) -> bool;

/// Compiles `pattern` once with `regex::Regex::new` (default settings: Unicode
/// mode) and reports, for each character of `chars`, whether the pattern
/// matches the text made of that single character. The contract claims only
/// that each answer is a function of the pattern and the character, named
/// `regex_char_match`; a pattern that does not compile gives `false`, which
/// the name covers too.
#[verifier::external_body]
fn regex_class_flags(pattern: &str, chars: &[char]) -> (flags: Vec<bool>)
    ensures
        flags@.len() == chars@.len(),
        forall|i: int| 0 <= i < chars@.len() ==> flags@[i] == regex_char_match(pattern@, chars@[i]),
{
    let mut buf = [0u8; 4];
    match regex::Regex::new(pattern) {
        Ok(re) => chars.iter().map(|c| re.is_match(c.encode_utf8(&mut buf))).collect(),
        Err(_) => chars.iter().map(|_| false).collect(),
    }
}

/// The two regex classes that the location format uses.
#[derive(Clone, Copy, Debug, PartialEq, Eq, Structural)]
pub enum RegexClass {
    /// `\d`: Unicode `Decimal_Number`.
    Digit,
    /// `\w`: Unicode word characters, the class behind `\b`.
    Word,
}

/// The pattern `\d` or `\w`: a character of the class. Matched against a
/// text of one character, it tells whether that character is in the class.
pub open spec fn class_pattern(class: RegexClass) -> Seq<char> {
    match class {
        RegexClass::Digit => seq!['\\', 'd'],
        RegexClass::Word => seq!['\\', 'w'],
    }
}

/// The ASCII part of a class: `0-9` for `\d`, `[0-9A-Za-z_]` for `\w`.
pub open spec fn spec_in_ascii_class(class: RegexClass, c: char) -> bool {
    match class {
        RegexClass::Digit => '0' <= c && c <= '9',
        RegexClass::Word => ('0' <= c && c <= '9') || ('A' <= c && c <= 'Z') || ('a' <= c && c <= 'z')
            || c == '_',
    }
}

/// Whether `c` is in the regex class: ASCII characters by the class's ASCII
/// part, all others by the regex crate's own tables.
pub open spec fn spec_in_class(class: RegexClass, c: char) -> bool {
    if c <= '\u{7f}' {
        spec_in_ascii_class(class, c)
    } else {
        regex_char_match(class_pattern(class), c)
    }
}

/// The regex class `\d` (Unicode `Decimal_Number`).
pub open spec fn spec_is_digit(c: char) -> bool {
    spec_in_class(RegexClass::Digit, c)
}

/// The regex class `\w` (Unicode word character, the class behind `\b`).
pub open spec fn spec_is_word(c: char) -> bool {
    spec_in_class(RegexClass::Word, c)
}

fn in_ascii_class(class: RegexClass, c: char) -> (b: bool)
    ensures
        b == spec_in_ascii_class(class, c),
{
    match class {
        RegexClass::Digit => '0' <= c && c <= '9',
        RegexClass::Word => ('0' <= c && c <= '9') || ('A' <= c && c <= 'Z') || ('a' <= c && c <= 'z')
            || c == '_',
    }
}

/// The pattern text of a class.
fn class_pattern_text(class: RegexClass) -> (p: &'static str)
    ensures
        p@ == class_pattern(class),
{
    match class {
        RegexClass::Digit => {
            proof {
                reveal_strlit("\\d");
            }
            let p = "\\d";
            assert(p@ =~= class_pattern(class));
            p
        },
        RegexClass::Word => {
            proof {
                reveal_strlit("\\w");
            }
            let p = "\\w";
            assert(p@ =~= class_pattern(class));
            p
        },
    }
}

/// For each character of `v`, whether it is in the class. The regex is
/// compiled at most once, and only when `v` holds a non-ASCII character.
pub fn class_flags(v: &Vec<char>, class: RegexClass) -> (flags: Vec<bool>)
    ensures
        flags@.len() == v@.len(),
        forall|i: int| 0 <= i < v@.len() ==> flags@[i] == spec_in_class(class, #[trigger] v@[i]),
{
    let mut all_ascii = true;
    let mut i: usize = 0;
    while i < v.len()
        invariant
            i <= v.len(),
            all_ascii == (forall|k: int| 0 <= k < i ==> #[trigger] v@[k] <= '\u{7f}'),
        decreases v.len() - i,
    {
        if v[i] > '\u{7f}' {
            all_ascii = false;
        }
        i = i + 1;
    }
    let outside = if all_ascii {
        Vec::new()
    } else {
        regex_class_flags(class_pattern_text(class), v.as_slice())
    };
    let mut flags: Vec<bool> = Vec::new();
    let mut j: usize = 0;
    while j < v.len()
        invariant
            j <= v.len(),
            flags@.len() == j,
            all_ascii == (forall|k: int| 0 <= k < v.len() ==> #[trigger] v@[k] <= '\u{7f}'),
            !all_ascii ==> outside@.len() == v@.len() && forall|k: int|
                0 <= k < v@.len() ==> outside@[k] == regex_char_match(class_pattern(class), #[trigger] v@[k]),
            forall|k: int| 0 <= k < j ==> flags@[k] == spec_in_class(class, #[trigger] v@[k]),
        decreases v.len() - j,
    {
        let c = v[j];
        if c <= '\u{7f}' {
            flags.push(in_ascii_class(class, c));
        } else {
            flags.push(outside[j]);
        }
        j = j + 1;
    }
    flags
}

/// Whether `c` is in the regex class `\d`.
pub fn is_digit(c: char) -> (b: bool)
    ensures
        b == spec_is_digit(c),
{
    let one = vec![c];
    let flags = class_flags(&one, RegexClass::Digit);
    flags[0]
}

/// Whether `c` is in the regex class `\w`.
pub fn is_word(c: char) -> (b: bool)
    ensures
        b == spec_is_word(c),
{
    let one = vec![c];
    let flags = class_flags(&one, RegexClass::Word);
    flags[0]
}

} // verus!
