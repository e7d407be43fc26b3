//! Character and string helpers shared by the parsers and the style matcher.

use vstd::prelude::*;

verus! {

use vstd::string::StrSliceExecFns;

/// Relies on `String::push`: appends one character at the end of the string.
#[verifier::external_body]
pub(crate) fn push_char(s: &mut String, c: char)
    ensures
        final(s)@ == old(s)@.push(c),
{
    s.push(c);
}

/// Collect the characters of a string slice into a vector.
pub fn chars_of(s: &str) -> (r: Vec<char>)
    ensures
        r@ == s@,
{
    let n = s.unicode_len();
    let mut r: Vec<char> = Vec::new();
    let mut i: usize = 0;
    while i < n
        invariant
            n == s@.len(),
            i <= n,
            r@ == s@.subrange(0, i as int),
        decreases n - i,
    {
        r.push(s.get_char(i));
        i = i + 1;
        proof {
            assert(r@ =~= s@.subrange(0, i as int));
        }
    }
    proof {
        assert(r@ =~= s@);
    }
    r
}

/// Compare two string slices character by character.
pub fn eq_str(a: &str, b: &str) -> (r: bool)
    ensures
        r == (a@ == b@),
{
    let na = a.unicode_len();
    let nb = b.unicode_len();
    if na != nb {
        return false;
    }
    let mut i: usize = 0;
    while i < na
        invariant
            na == a@.len(),
            na == b@.len(),
            i <= na,
            forall|j: int| 0 <= j < i ==> a@[j] == b@[j],
        decreases na - i,
    {
        if a.get_char(i) != b.get_char(i) {
            return false;
        }
        i = i + 1;
    }
    proof {
        assert(a@ =~= b@);
    }
    true
}

/// Decide whether one of the strings in `v` has the characters of `s`.
pub fn contains_str(v: &Vec<String>, s: &str) -> (r: bool)
    ensures
        r == v@.map_values(|t: String| t@).contains(s@),
{
    let mut i: usize = 0;
    while i < v.len()
        invariant
            i <= v@.len(),
            forall|j: int| 0 <= j < i ==> (#[trigger] v@[j])@ != s@,
        decreases v@.len() - i,
    {
        if eq_str(v[i].as_str(), s) {
            proof {
                assert(v@.map_values(|t: String| t@)[i as int] == s@);
            }
            return true;
        }
        i = i + 1;
    }
    proof {
        assert forall|j: int| #![trigger v@[j]] 0 <= j < v@.len() implies v@.map_values(
            |t: String| t@,
        )[j] != s@ by {
            assert(v@.map_values(|t: String| t@)[j] == v@[j]@);
        }
        let ghost mapped = v@.map_values(|t: String| t@);
        assert(!mapped.contains(s@)) by {
            if mapped.contains(s@) {
                let k = choose|k: int| 0 <= k < mapped.len() && #[trigger] mapped[k] == s@;
                assert(v@[k]@ != s@);
            }
        }
    }
    false
}

/// The Unicode `White_Space` characters, the set the parsers skip between
/// tokens.
pub open spec fn is_whitespace_char(c: char) -> bool {
    let u = c as u32;
    (0x9 <= u && u <= 0xD) || u == 0x20 || u == 0x85 || u == 0xA0 || u == 0x1680 || (0x2000 <= u
        && u <= 0x200A) || u == 0x2028 || u == 0x2029 || u == 0x202F || u == 0x205F || u == 0x3000
}

/// Decide whether a character counts as whitespace.
pub fn whitespace_char(c: char) -> (r: bool)
    ensures
        r == is_whitespace_char(c),
{
    let u = c as u32;
    (0x9 <= u && u <= 0xD) || u == 0x20 || u == 0x85 || u == 0xA0 || u == 0x1680 || (0x2000 <= u
        && u <= 0x200A) || u == 0x2028 || u == 0x2029 || u == 0x202F || u == 0x205F || u == 0x3000
}

/// Splitting a string at every space character, keeping empty segments, as
/// seen after already having read `cur` since the last space and with the
/// characters from `i` on still to read.
pub open spec fn split_spaces_from(s: Seq<char>, i: int, cur: Seq<char>) -> Seq<Seq<char>>
    decreases s.len() - i,
{
    if i < 0 || i >= s.len() {
        seq![cur]
    } else if s[i] == ' ' {
        seq![cur] + split_spaces_from(s, i + 1, Seq::empty())
    } else {
        split_spaces_from(s, i + 1, cur.push(s[i]))
    }
}

/// The segments of `s` between space characters, in order, empty segments
/// included (so the empty string has one empty segment).
pub open spec fn spec_split_spaces(s: Seq<char>) -> Seq<Seq<char>> {
    split_spaces_from(s, 0, Seq::empty())
}

/// Split a string at every space character, keeping empty segments.
pub fn split_spaces(s: &str) -> (r: Vec<String>)
    ensures
        r@.map_values(|seg: String| seg@) == spec_split_spaces(s@),
{
    let n = s.unicode_len();
    let mut r: Vec<String> = Vec::new();
    let mut cur: String = String::new();
    let mut i: usize = 0;
    while i < n
        invariant
            n == s@.len(),
            i <= n,
            spec_split_spaces(s@) == r@.map_values(|seg: String| seg@) + split_spaces_from(
                s@,
                i as int,
                cur@,
            ),
        decreases n - i,
    {
        let c = s.get_char(i);
        if c == ' ' {
            r.push(cur);
            cur = String::new();
            proof {
                assert(r@.map_values(|seg: String| seg@) =~= r@.subrange(0, r@.len() - 1).map_values(
                    |seg: String| seg@,
                ).push(r@[r@.len() - 1]@));
            }
        } else {
            push_char(&mut cur, c);
        }
        i = i + 1;
    }
    r.push(cur);
    proof {
        assert(r@.map_values(|seg: String| seg@) =~= r@.subrange(0, r@.len() - 1).map_values(
            |seg: String| seg@,
        ).push(r@[r@.len() - 1]@));
    }
    r
}

/// What stopped a parser: the input ended too soon, a character stood where
/// another was expected, or a length carried an unknown unit.
#[derive(PartialEq, Eq, Structural, Clone, Copy, Debug)]
pub enum ParseError {
    UnexpectedEndOfInput,
    UnexpectedCharacter,
    UnrecognizedUnit,
    MismatchedCloseTag,
}

/// A character class the parsers scan over.
#[derive(PartialEq, Eq, Structural, Clone, Copy, Debug)]
pub enum CharClass {
    /// Unicode whitespace.
    Whitespace,
    /// Identifier characters: letters, digits, `-` and `_`.
    Identifier,
    /// Tag-name characters: letters and digits.
    TagName,
    /// Characters of a pixel length: digits and `.`.
    LengthChars,
    /// Any character but the given one.
    NotChar(char),
}

/// Whether `c` may appear in an identifier.
pub open spec fn is_identifier_char(c: char) -> bool {
    ('a' <= c && c <= 'z') || ('A' <= c && c <= 'Z') || ('0' <= c && c <= '9') || c == '-' || c
        == '_'
}

/// Whether a character may appear in an identifier (a letter, a digit, `-`
/// or `_`).
pub fn valid_identifier_char(c: char) -> (r: bool)
    ensures
        r == is_identifier_char(c),
{
    ('a' <= c && c <= 'z') || ('A' <= c && c <= 'Z') || ('0' <= c && c <= '9') || c == '-' || c
        == '_'
}

/// Whether `c` belongs to the class.
pub open spec fn class_holds(class: CharClass, c: char) -> bool {
    match class {
        CharClass::Whitespace => is_whitespace_char(c),
        CharClass::Identifier => is_identifier_char(c),
        CharClass::TagName => ('a' <= c && c <= 'z') || ('A' <= c && c <= 'Z') || ('0' <= c && c
            <= '9'),
        CharClass::LengthChars => ('0' <= c && c <= '9') || c == '.',
        CharClass::NotChar(stop) => c != stop,
    }
}

/// Decide whether `c` belongs to the class.
pub fn class_char(class: CharClass, c: char) -> (r: bool)
    ensures
        r == class_holds(class, c),
{
    match class {
        CharClass::Whitespace => whitespace_char(c),
        CharClass::Identifier => valid_identifier_char(c),
        CharClass::TagName => ('a' <= c && c <= 'z') || ('A' <= c && c <= 'Z') || ('0' <= c && c
            <= '9'),
        CharClass::LengthChars => ('0' <= c && c <= '9') || c == '.',
        CharClass::NotChar(stop) => c != stop,
    }
}

/// Index of the first character from `pos` on that is not in the class; the
/// length when all of them are.
pub open spec fn scan_end(s: Seq<char>, pos: int, class: CharClass) -> int
    decreases s.len() - pos,
{
    if pos < 0 || pos >= s.len() || !class_holds(class, s[pos]) {
        pos
    } else {
        scan_end(s, pos + 1, class)
    }
}

/// Where a scan stops: between its start and the end of the input, with
/// every skipped character in the class and, when it stops short of the end,
/// a first character outside it.
pub proof fn lemma_scan_end_bounds(s: Seq<char>, pos: int, class: CharClass)
    requires
        0 <= pos <= s.len(),
    ensures
        pos <= scan_end(s, pos, class) <= s.len(),
        forall|j: int| pos <= j < scan_end(s, pos, class) ==> class_holds(class, s[j]),
        scan_end(s, pos, class) < s.len() ==> !class_holds(class, s[scan_end(s, pos, class)]),
    decreases s.len() - pos,
{
    if pos < s.len() && class_holds(class, s[pos]) {
        lemma_scan_end_bounds(s, pos + 1, class);
    }
}

/// Consume the longest run of characters in the class, starting at `start`,
/// and return it with the position where it ends.
pub fn scan_class(input: &Vec<char>, start: usize, class: CharClass) -> (r: (String, usize))
    requires
        start <= input@.len(),
    ensures
        r.1 as int == scan_end(input@, start as int, class),
        start <= r.1 <= input@.len(),
        r.0@ == input@.subrange(start as int, r.1 as int),
    {
    let mut result = String::new();
    let mut pos = start;
    while pos < input.len() && class_char(class, input[pos])
        invariant
            start <= pos <= input@.len(),
            scan_end(input@, start as int, class) == scan_end(input@, pos as int, class),
            result@ == input@.subrange(start as int, pos as int),
        decreases input@.len() - pos,
    {
        push_char(&mut result, input[pos]);
        pos = pos + 1;
        proof {
            assert(result@ =~= input@.subrange(start as int, pos as int));
        }
    }
    (result, pos)
}

} // verus!
