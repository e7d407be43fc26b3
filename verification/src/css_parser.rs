//! The CSS parser: a recursive-descent scanner from text to a `Stylesheet`.
//!
//! Every parsing step is mirrored by a specification function over the
//! character sequence and the current position, so the parser's result is
//! pinned down exactly, including the position each step ends at and the
//! error malformed text produces.

use vstd::prelude::*;

use crate::css::{
    Color, Declaration, DeclarationV, Rule, RuleV, Selector, SelectorV, SimpleSelector,
    SimpleSelectorV, Stylesheet, Unit, Value, ValueV, spec_specificity,
};
use crate::geometry::clip;
use crate::text::{chars_of, scan_class, scan_end, lemma_scan_end_bounds, CharClass, ParseError};

verus! {

use vstd::string::StrSliceExecFns;

/// The position where whitespace starting at `pos` ends.
pub open spec fn ws_end(s: Seq<char>, pos: int) -> int {
    scan_end(s, pos, CharClass::Whitespace)
}

/// A hexadecimal digit.
pub open spec fn is_hex_digit(c: char) -> bool {
    ('0' <= c && c <= '9') || ('a' <= c && c <= 'f') || ('A' <= c && c <= 'F')
}

/// The value of a hexadecimal digit (zero for anything else).
pub open spec fn hex_val(c: char) -> int {
    if '0' <= c && c <= '9' {
        c as int - '0' as int
    } else if 'a' <= c && c <= 'f' {
        c as int - 'a' as int + 10
    } else if 'A' <= c && c <= 'F' {
        c as int - 'A' as int + 10
    } else {
        0
    }
}

/// Two hexadecimal digits read as one byte.
pub open spec fn parse_hex_pair_spec(s: Seq<char>, pos: int) -> Result<(int, int), ParseError> {
    if pos + 2 <= s.len() && is_hex_digit(s[pos]) && is_hex_digit(s[pos + 1]) {
        Ok((hex_val(s[pos]) * 16 + hex_val(s[pos + 1]), pos + 2))
    } else {
        Err(ParseError::UnexpectedCharacter)
    }
}

/// A colour value: `#` followed by three hex pairs; the alpha channel is
/// always opaque.
pub open spec fn parse_color_spec(s: Seq<char>, pos: int) -> Result<(ValueV, int), ParseError> {
    if pos >= s.len() || s[pos] != '#' {
        Err(ParseError::UnexpectedCharacter)
    } else {
        match parse_hex_pair_spec(s, pos + 1) {
            Ok((r, p1)) => match parse_hex_pair_spec(s, p1) {
                Ok((g, p2)) => match parse_hex_pair_spec(s, p2) {
                    Ok((b, p3)) => Ok(
                        (
                            ValueV::ColorValue(
                                Color { r: r as u8, g: g as u8, b: b as u8, a: 255 },
                            ),
                            p3,
                        ),
                    ),
                    Err(e) => Err(e),
                },
                Err(e) => Err(e),
            },
            Err(e) => Err(e),
        }
    }
}

/// Index of the first `.` in `s` between `i` and `end`; `end` when there is
/// none.
pub open spec fn dot_index(s: Seq<char>, i: int, end: int) -> int
    decreases end - i,
{
    if i < 0 || i >= end || i >= s.len() {
        end
    } else if s[i] == '.' {
        i
    } else {
        dot_index(s, i + 1, end)
    }
}

/// The decimal value of the digits of `s` between `i` and `end`, accumulated
/// onto `acc`, saturating at the pixel range.
pub open spec fn digits_val(s: Seq<char>, i: int, end: int, acc: int) -> int
    decreases end - i,
{
    if i < 0 || i >= end || i >= s.len() {
        acc
    } else {
        digits_val(s, i + 1, end, clip(acc * 10 + (s[i] as int - '0' as int)))
    }
}

/// The first dot lies between the scan start and its end.
pub proof fn lemma_dot_index_bounds(s: Seq<char>, i: int, end: int)
    requires
        0 <= i <= end,
    ensures
        i <= dot_index(s, i, end) <= end,
    decreases end - i,
{
    if i < end && i < s.len() && s[i] != '.' {
        lemma_dot_index_bounds(s, i + 1, end);
    }
}

/// A number token between `pos` and `end`: at least one digit before any
/// `.`, and at most one `.`.
pub open spec fn valid_number(s: Seq<char>, pos: int, end: int) -> bool {
    let d = dot_index(s, pos, end);
    pos < d && dot_index(s, d + 1, end) == end
}

/// A pixel length: a run of digits and dots read as a whole-pixel count
/// (any fractional digits are dropped), followed by a unit.
pub open spec fn parse_length_spec(s: Seq<char>, pos: int) -> Result<(ValueV, int), ParseError> {
    let end = scan_end(s, pos, CharClass::LengthChars);
    if !valid_number(s, pos, end) {
        Err(ParseError::UnexpectedCharacter)
    } else {
        let n = digits_val(s, pos, dot_index(s, pos, end), 0);
        match parse_unit_spec(s, end) {
            Ok((unit, p2)) => Ok((ValueV::Length(n, unit), p2)),
            Err(e) => Err(e),
        }
    }
}

/// A unit name: the identifier `px` in any letter case.
pub open spec fn parse_unit_spec(s: Seq<char>, pos: int) -> Result<(Unit, int), ParseError> {
    let end = scan_end(s, pos, CharClass::Identifier);
    if end - pos == 2 && (s[pos] == 'p' || s[pos] == 'P') && (s[pos + 1] == 'x' || s[pos + 1]
        == 'X') {
        Ok((Unit::Px, end))
    } else {
        Err(ParseError::UnrecognizedUnit)
    }
}

/// A value: a length when a digit follows, a colour after `#`, and otherwise
/// a keyword.
pub open spec fn parse_value_spec(s: Seq<char>, pos: int) -> Result<(ValueV, int), ParseError> {
    if pos >= s.len() {
        Err(ParseError::UnexpectedEndOfInput)
    } else if '0' <= s[pos] && s[pos] <= '9' {
        parse_length_spec(s, pos)
    } else if s[pos] == '#' {
        parse_color_spec(s, pos)
    } else {
        let end = scan_end(s, pos, CharClass::Identifier);
        Ok((ValueV::Keyword(s.subrange(pos, end)), end))
    }
}

/// One `property: value;` declaration.
pub open spec fn parse_declaration_spec(s: Seq<char>, pos: int) -> Result<
    (DeclarationV, int),
    ParseError,
> {
    let e1 = scan_end(s, pos, CharClass::Identifier);
    let name = s.subrange(pos, e1);
    let e2 = ws_end(s, e1);
    if e2 >= s.len() {
        Err(ParseError::UnexpectedEndOfInput)
    } else if s[e2] != ':' {
        Err(ParseError::UnexpectedCharacter)
    } else {
        let e3 = ws_end(s, e2 + 1);
        match parse_value_spec(s, e3) {
            Ok((value, e4)) => {
                let e5 = ws_end(s, e4);
                if e5 >= s.len() {
                    Err(ParseError::UnexpectedEndOfInput)
                } else if s[e5] != ';' {
                    Err(ParseError::UnexpectedCharacter)
                } else {
                    Ok((DeclarationV { name, value }, e5 + 1))
                }
            },
            Err(e) => Err(e),
        }
    }
}

/// The declarations of a rule after its `{`, up to and including the `}`,
/// collected onto `acc`.
pub open spec fn parse_decl_items_spec(s: Seq<char>, pos: int, acc: Seq<DeclarationV>) -> Result<
    (Seq<DeclarationV>, int),
    ParseError,
>
    decreases s.len() - pos,
{
    let p1 = ws_end(s, pos);
    if p1 >= s.len() {
        Err(ParseError::UnexpectedEndOfInput)
    } else if s[p1] == '}' {
        Ok((acc, p1 + 1))
    } else {
        match parse_declaration_spec(s, p1) {
            Ok((d, p2)) => if pos < p2 <= s.len() {
                parse_decl_items_spec(s, p2, acc.push(d))
            } else {
                Err(ParseError::UnexpectedCharacter)
            },
            Err(e) => Err(e),
        }
    }
}

/// A declaration block: `{`, declarations, `}`.
pub open spec fn parse_declarations_spec(s: Seq<char>, pos: int) -> Result<
    (Seq<DeclarationV>, int),
    ParseError,
> {
    if pos >= s.len() {
        Err(ParseError::UnexpectedEndOfInput)
    } else if s[pos] != '{' {
        Err(ParseError::UnexpectedCharacter)
    } else {
        parse_decl_items_spec(s, pos + 1, Seq::empty())
    }
}

/// One simple selector read from `pos`, accumulated onto `cur`:
/// `#id`, `.class`, `*` and a tag name, in any order, until another
/// character.
pub open spec fn parse_simple_selector_spec(s: Seq<char>, pos: int, cur: SimpleSelectorV) -> (
    SimpleSelectorV,
    int,
)
    decreases s.len() - pos,
    via parse_simple_selector_spec_decreases
{
    if pos < 0 || pos >= s.len() {
        (cur, pos)
    } else if s[pos] == '#' {
        let end = scan_end(s, pos + 1, CharClass::Identifier);
        parse_simple_selector_spec(
            s,
            end,
            SimpleSelectorV { id: Some(s.subrange(pos + 1, end)), ..cur },
        )
    } else if s[pos] == '.' {
        let end = scan_end(s, pos + 1, CharClass::Identifier);
        parse_simple_selector_spec(
            s,
            end,
            SimpleSelectorV { class: cur.class.push(s.subrange(pos + 1, end)), ..cur },
        )
    } else if s[pos] == '*' {
        // universal selector
        parse_simple_selector_spec(s, pos + 1, cur)
    } else if crate::text::is_identifier_char(s[pos]) {
        let end = scan_end(s, pos, CharClass::Identifier);
        parse_simple_selector_spec(
            s,
            end,
            SimpleSelectorV { tag_name: Some(s.subrange(pos, end)), ..cur },
        )
    } else {
        (cur, pos)
    }
}

#[via_fn]
proof fn parse_simple_selector_spec_decreases(s: Seq<char>, pos: int, cur: SimpleSelectorV) {
    if 0 <= pos < s.len() {
        lemma_scan_end_bounds(s, pos + 1, CharClass::Identifier);
        lemma_scan_end_bounds(s, pos, CharClass::Identifier);
    }
}

/// Lexicographic order on specificity triples.
pub open spec fn spec_le(a: (int, int, int), b: (int, int, int)) -> bool {
    a.0 < b.0 || (a.0 == b.0 && (a.1 < b.1 || (a.1 == b.1 && a.2 <= b.2)))
}

/// `x` inserted into the descending sequence `sels`, after any selector of
/// equal specificity.
pub open spec fn insert_desc(sels: Seq<SelectorV>, x: SelectorV) -> Seq<SelectorV>
    decreases sels.len(),
{
    if sels.len() == 0 {
        seq![x]
    } else if spec_le(spec_specificity(x), spec_specificity(sels.last())) {
        sels.push(x)
    } else {
        insert_desc(sels.drop_last(), x).push(sels.last())
    }
}

/// The stable sort of the selectors, highest specificity first, for use in
/// matching.
pub open spec fn sort_desc(sels: Seq<SelectorV>) -> Seq<SelectorV>
    decreases sels.len(),
{
    if sels.len() == 0 {
        Seq::empty()
    } else {
        insert_desc(sort_desc(sels.drop_last()), sels.last())
    }
}

/// A comma-separated selector list up to (but not including) the `{` of the
/// declaration block, accumulated onto `acc` and finally sorted descending
/// by specificity.
pub open spec fn parse_selectors_spec(s: Seq<char>, pos: int, acc: Seq<SelectorV>) -> Result<
    (Seq<SelectorV>, int),
    ParseError,
>
    decreases s.len() - pos,
{
    let done = parse_simple_selector_spec(
        s,
        pos,
        SimpleSelectorV { tag_name: None, id: None, class: Seq::empty() },
    );
    let sels = acc.push(SelectorV::Simple(done.0));
    let p2 = ws_end(s, done.1);
    if p2 >= s.len() {
        Err(ParseError::UnexpectedEndOfInput)
    } else if s[p2] == ',' {
        let p3 = ws_end(s, p2 + 1);
        if pos < p3 <= s.len() {
            parse_selectors_spec(s, p3, sels)
        } else {
            Err(ParseError::UnexpectedCharacter)
        }
    } else if s[p2] == '{' {
        Ok((sort_desc(sels), p2))
    } else {
        Err(ParseError::UnexpectedCharacter)
    }
}

/// A rule set: selectors, then the declaration block.
pub open spec fn parse_rule_spec(s: Seq<char>, pos: int) -> Result<(RuleV, int), ParseError> {
    match parse_selectors_spec(s, pos, Seq::empty()) {
        Ok((sels, p1)) => match parse_declarations_spec(s, p1) {
            Ok((decls, p2)) => Ok((RuleV { selectors: sels, declarations: decls }, p2)),
            Err(e) => Err(e),
        },
        Err(e) => Err(e),
    }
}

/// The rule sets of a stylesheet, separated by optional whitespace, up to
/// the end of the input, accumulated onto `acc`.
pub open spec fn parse_rules_spec(s: Seq<char>, pos: int, acc: Seq<RuleV>) -> Result<
    (Seq<RuleV>, int),
    ParseError,
>
    decreases s.len() - pos,
{
    let p1 = ws_end(s, pos);
    if p1 >= s.len() {
        Ok((acc, p1))
    } else {
        match parse_rule_spec(s, p1) {
            Ok((rule, p2)) => if pos < p2 <= s.len() {
                parse_rules_spec(s, p2, acc.push(rule))
            } else {
                Err(ParseError::UnexpectedCharacter)
            },
            Err(e) => Err(e),
        }
    }
}

/// The stylesheet a source text parses to, or the error its first malformed
/// construct produces.
pub open spec fn parse_stylesheet_spec(s: Seq<char>) -> Result<Seq<RuleV>, ParseError> {
    match parse_rules_spec(s, 0, Seq::empty()) {
        Ok((rules, _)) => Ok(rules),
        Err(e) => Err(e),
    }
}

/// The CSS parser's state: the input characters and the current position.
pub struct Parser {
    pos: usize,
    input: Vec<char>,
}

impl Parser {
    /// The position never runs past the end of the input.
    pub closed spec fn wf(self) -> bool {
        self.pos <= self.input@.len()
    }

    /// Parse a whole CSS stylesheet.
    pub fn parse(source: &str) -> (r: Result<Stylesheet, ParseError>)
        ensures
            match r {
                Ok(sheet) => parse_stylesheet_spec(source@) == Ok::<_, ParseError>(sheet@),
                Err(e) => parse_stylesheet_spec(source@) == Err::<Seq<RuleV>, _>(e),
            },
    {
        let mut parser = Parser { pos: 0, input: chars_of(source) };
        match parser.parse_rules() {
            Ok(rules) => Ok(Stylesheet { rules }),
            Err(e) => Err(e),
        }
    }

    /// Return true if all input is consumed.
    fn eof(&self) -> (r: bool)
        ensures
            r == (self.pos >= self.input@.len()),
    {
        self.pos >= self.input.len()
    }

    /// Read the current character without consuming it.
    fn next_char(&self) -> (c: char)
        requires
            self.pos < self.input@.len(),
        ensures
            c == self.input@[self.pos as int],
    {
        self.input[self.pos]
    }

    /// Return the current character, and advance past it.
    fn consume_char(&mut self) -> (c: char)
        requires
            old(self).pos < old(self).input@.len(),
        ensures
            c == old(self).input@[old(self).pos as int],
            final(self).input@ == old(self).input@,
            final(self).pos == old(self).pos + 1,
    {
        let c = self.input[self.pos];
        proof {
            assert(vstd::std_specs::vec::spec_vec_len(&self.input) == self.input@.len());
        }
        self.pos = self.pos + 1;
        c
    }

    /// Consume characters of the given class until one outside it.
    fn consume_while(&mut self, class: CharClass) -> (r: String)
        requires
            old(self).wf(),
        ensures
            final(self).input@ == old(self).input@,
            final(self).wf(),
            final(self).pos as int == scan_end(old(self).input@, old(self).pos as int, class),
            old(self).pos <= final(self).pos,
            r@ == old(self).input@.subrange(old(self).pos as int, final(self).pos as int),
    {
        let (s, end) = scan_class(&self.input, self.pos, class);
        self.pos = end;
        s
    }

    /// Consume and discard zero or more whitespace characters.
    fn consume_whitespace(&mut self)
        requires
            old(self).wf(),
        ensures
            final(self).input@ == old(self).input@,
            final(self).wf(),
            final(self).pos as int == ws_end(old(self).input@, old(self).pos as int),
            old(self).pos <= final(self).pos,
    {
        let _ = self.consume_while(CharClass::Whitespace);
    }

    /// Parse a property name or keyword.
    fn parse_identifier(&mut self) -> (r: String)
        requires
            old(self).wf(),
        ensures
            final(self).input@ == old(self).input@,
            final(self).wf(),
            final(self).pos as int == scan_end(
                old(self).input@,
                old(self).pos as int,
                CharClass::Identifier,
            ),
            old(self).pos <= final(self).pos,
            r@ == old(self).input@.subrange(old(self).pos as int, final(self).pos as int),
    {
        self.consume_while(CharClass::Identifier)
    }

    /// Parse two hexadecimal digits.
    fn parse_hex_pair(&mut self) -> (r: Result<u8, ParseError>)
        requires
            old(self).wf(),
        ensures
            final(self).input@ == old(self).input@,
            final(self).wf(),
            match r {
                Ok(v) => parse_hex_pair_spec(old(self).input@, old(self).pos as int) == Ok::<
                    _,
                    ParseError,
                >((v as int, final(self).pos as int)),
                Err(e) => parse_hex_pair_spec(old(self).input@, old(self).pos as int) == Err::<
                    (int, int),
                    _,
                >(e) && *final(self) == *old(self),
            },
    {
        if self.input.len() - self.pos < 2 {
            return Err(ParseError::UnexpectedCharacter);
        }
        let c0 = self.input[self.pos];
        let c1 = self.input[self.pos + 1];
        match (hex_digit_value(c0), hex_digit_value(c1)) {
            (Some(h), Some(l)) => {
                self.pos = self.pos + 2;
                Ok(h * 16 + l)
            },
            _ => Err(ParseError::UnexpectedCharacter),
        }
    }

    /// Parse a colour of the form `#rrggbb`.
    fn parse_color(&mut self) -> (r: Result<Value, ParseError>)
        requires
            old(self).wf(),
        ensures
            final(self).input@ == old(self).input@,
            final(self).wf(),
            match r {
                Ok(v) => parse_color_spec(old(self).input@, old(self).pos as int) == Ok::<
                    _,
                    ParseError,
                >((v@, final(self).pos as int)),
                Err(e) => parse_color_spec(old(self).input@, old(self).pos as int) == Err::<
                    (ValueV, int),
                    _,
                >(e),
            },
    {
        if self.eof() || self.next_char() != '#' {
            return Err(ParseError::UnexpectedCharacter);
        }
        let _ = self.consume_char();
        let r = match self.parse_hex_pair() {
            Ok(v) => v,
            Err(e) => {
                return Err(e);
            },
        };
        let g = match self.parse_hex_pair() {
            Ok(v) => v,
            Err(e) => {
                return Err(e);
            },
        };
        let b = match self.parse_hex_pair() {
            Ok(v) => v,
            Err(e) => {
                return Err(e);
            },
        };
        Ok(Value::ColorValue(Color::new(r, g, b, 255)))
    }

    /// Parse a unit name; pixels are the only unit.
    fn parse_unit(&mut self) -> (r: Result<Unit, ParseError>)
        requires
            old(self).wf(),
        ensures
            final(self).input@ == old(self).input@,
            final(self).wf(),
            match r {
                Ok(u) => parse_unit_spec(old(self).input@, old(self).pos as int) == Ok::<
                    _,
                    ParseError,
                >((u, final(self).pos as int)),
                Err(e) => parse_unit_spec(old(self).input@, old(self).pos as int) == Err::<
                    (Unit, int),
                    _,
                >(e),
            },
    {
        let id = self.parse_identifier();
        let s = id.as_str();
        if s.unicode_len() == 2 {
            let c0 = s.get_char(0);
            let c1 = s.get_char(1);
            if (c0 == 'p' || c0 == 'P') && (c1 == 'x' || c1 == 'X') {
                return Ok(Unit::Px);
            }
        }
        Err(ParseError::UnrecognizedUnit)
    }

    /// Parse the whole-pixel count of a length: digits, at most one dot, any
    /// fractional digits dropped.
    #[verifier::loop_isolation(false)]
    fn parse_number(&mut self) -> (r: Result<i64, ParseError>)
        requires
            old(self).wf(),
        ensures
            final(self).input@ == old(self).input@,
            final(self).wf(),
            match r {
                Ok(n) => {
                    let end = scan_end(
                        old(self).input@,
                        old(self).pos as int,
                        CharClass::LengthChars,
                    );
                    &&& valid_number(old(self).input@, old(self).pos as int, end)
                    &&& final(self).pos as int == end
                    &&& old(self).pos < final(self).pos
                    &&& n as int == digits_val(
                        old(self).input@,
                        old(self).pos as int,
                        dot_index(old(self).input@, old(self).pos as int, end),
                        0,
                    )
                },
                Err(e) => !valid_number(
                    old(self).input@,
                    old(self).pos as int,
                    scan_end(old(self).input@, old(self).pos as int, CharClass::LengthChars),
                ) && e == ParseError::UnexpectedCharacter,
            },
    {
        let ghost s = self.input@;
        let ghost pos0 = self.pos as int;
        let start = self.pos;
        let _ = self.consume_while(CharClass::LengthChars);
        let end = self.pos;
        let ghost endi = end as int;
        proof {
            lemma_scan_end_bounds(s, pos0, CharClass::LengthChars);
        }
        // The integer part: digits up to the first dot.
        let mut i = start;
        let mut acc: i64 = 0;
        while i < end && self.input[i] != '.'
            invariant
                start <= i <= end,
                self.input@ == s,
                self.pos == end,
                0 <= acc,
                dot_index(s, start as int, endi) == dot_index(s, i as int, endi),
                digits_val(s, start as int, dot_index(s, start as int, endi), 0) == digits_val(
                    s,
                    i as int,
                    dot_index(s, i as int, endi),
                    acc as int,
                ),
            decreases end - i,
        {
            let c = self.input[i];
            proof {
                assert(crate::text::class_holds(CharClass::LengthChars, s[i as int]));
            }
            let d = (c as u32) - 48;
            let wide: i128 = acc as i128 * 10 + d as i128;
            let ghost acc_old = acc as int;
            acc = if wide > i64::MAX as i128 {
                i64::MAX
            } else {
                wide as i64
            };
            proof {
                lemma_dot_index_bounds(s, i as int + 1, endi);
                assert(acc as int == clip(acc_old * 10 + (s[i as int] as int - '0' as int)));
                assert(dot_index(s, i as int, endi) == dot_index(s, i as int + 1, endi));
                assert(digits_val(s, i as int, dot_index(s, i as int, endi), acc_old)
                    == digits_val(s, i as int + 1, dot_index(s, i as int + 1, endi), acc as int));
            }
            i = i + 1;
        }
        let dot = i;
        if dot == start {
            // No digit before the dot (or an empty token).
            proof {
                assert(dot_index(s, start as int, endi) == start as int);
            }
            return Err(ParseError::UnexpectedCharacter);
        }
        proof {
            if (dot as int) < endi {
                assert(s[dot as int] == '.');
                assert(dot_index(s, dot as int, endi) == dot as int);
            } else {
                assert(dot_index(s, dot as int, endi) == endi);
            }
        }
        // No second dot may follow.
        let mut j = if dot < end {
            dot + 1
        } else {
            dot
        };
        let ghost rest0 = j as int;
        while j < end && self.input[j] != '.'
            invariant
                rest0 <= j <= end,
                self.input@ == s,
                self.pos == end,
                dot_index(s, rest0, endi) == dot_index(s, j as int, endi),
            decreases end - j,
        {
            j = j + 1;
        }
        if j < end {
            proof {
                assert(dot_index(s, rest0, endi) == j as int);
            }
            return Err(ParseError::UnexpectedCharacter);
        }
        proof {
            assert(dot_index(s, rest0, endi) == endi);
        }
        Ok(acc)
    }

    /// Parse a length value: a number followed by a unit.
    fn parse_length(&mut self) -> (r: Result<Value, ParseError>)
        requires
            old(self).wf(),
        ensures
            final(self).input@ == old(self).input@,
            final(self).wf(),
            match r {
                Ok(v) => parse_length_spec(old(self).input@, old(self).pos as int) == Ok::<
                    _,
                    ParseError,
                >((v@, final(self).pos as int)) && old(self).pos < final(self).pos,
                Err(e) => parse_length_spec(old(self).input@, old(self).pos as int) == Err::<
                    (ValueV, int),
                    _,
                >(e),
            },
    {
        let ghost s = self.input@;
        let ghost pos0 = self.pos as int;
        let n = match self.parse_number() {
            Ok(n) => n,
            Err(e) => {
                return Err(e);
            },
        };
        proof {
            lemma_scan_end_bounds(s, pos0, CharClass::LengthChars);
        }
        match self.parse_unit() {
            Ok(unit) => {
                proof {
                    lemma_scan_end_bounds(s, scan_end(s, pos0, CharClass::LengthChars),
                        CharClass::Identifier);
                }
                Ok(Value::Length(n, unit))
            },
            Err(e) => Err(e),
        }
    }

    /// Parse a value: a length, a colour or a keyword.
    fn parse_value(&mut self) -> (r: Result<Value, ParseError>)
        requires
            old(self).wf(),
        ensures
            final(self).input@ == old(self).input@,
            final(self).wf(),
            match r {
                Ok(v) => parse_value_spec(old(self).input@, old(self).pos as int) == Ok::<
                    _,
                    ParseError,
                >((v@, final(self).pos as int)) && old(self).pos <= final(self).pos,
                Err(e) => parse_value_spec(old(self).input@, old(self).pos as int) == Err::<
                    (ValueV, int),
                    _,
                >(e),
            },
    {
        if self.eof() {
            return Err(ParseError::UnexpectedEndOfInput);
        }
        let c = self.next_char();
        if '0' <= c && c <= '9' {
            self.parse_length()
        } else if c == '#' {
            proof {
                lemma_parse_color_bounds(self.input@, self.pos as int);
            }
            self.parse_color()
        } else {
            Ok(Value::Keyword(self.parse_identifier()))
        }
    }

    /// Parse one `<property>: <value>;` declaration.
    fn parse_declaration(&mut self) -> (r: Result<Declaration, ParseError>)
        requires
            old(self).wf(),
        ensures
            final(self).input@ == old(self).input@,
            final(self).wf(),
            match r {
                Ok(d) => parse_declaration_spec(old(self).input@, old(self).pos as int) == Ok::<
                    _,
                    ParseError,
                >((d@, final(self).pos as int)) && old(self).pos < final(self).pos,
                Err(e) => parse_declaration_spec(old(self).input@, old(self).pos as int) == Err::<
                    (DeclarationV, int),
                    _,
                >(e),
            },
    {
        let property_name = self.parse_identifier();
        self.consume_whitespace();
        if self.eof() {
            return Err(ParseError::UnexpectedEndOfInput);
        }
        if self.next_char() != ':' {
            return Err(ParseError::UnexpectedCharacter);
        }
        let _ = self.consume_char();
        self.consume_whitespace();
        let value = match self.parse_value() {
            Ok(v) => v,
            Err(e) => {
                return Err(e);
            },
        };
        self.consume_whitespace();
        if self.eof() {
            return Err(ParseError::UnexpectedEndOfInput);
        }
        if self.next_char() != ';' {
            return Err(ParseError::UnexpectedCharacter);
        }
        let _ = self.consume_char();
        Ok(Declaration { name: property_name, value })
    }

    /// Parse a list of declarations enclosed in `{ ... }`.
    #[verifier::loop_isolation(false)]
    fn parse_declarations(&mut self) -> (r: Result<Vec<Declaration>, ParseError>)
        requires
            old(self).wf(),
        ensures
            final(self).input@ == old(self).input@,
            final(self).wf(),
            match r {
                Ok(ds) => parse_declarations_spec(old(self).input@, old(self).pos as int) == Ok::<
                    _,
                    ParseError,
                >(
                    (ds@.map_values(|d: Declaration| d@), final(self).pos as int),
                ) && old(self).pos < final(self).pos,
                Err(e) => parse_declarations_spec(old(self).input@, old(self).pos as int) == Err::<
                    (Seq<DeclarationV>, int),
                    _,
                >(e),
            },
    {
        let ghost s = self.input@;
        if self.eof() {
            return Err(ParseError::UnexpectedEndOfInput);
        }
        if self.next_char() != '{' {
            return Err(ParseError::UnexpectedCharacter);
        }
        let _ = self.consume_char();
        let mut declarations: Vec<Declaration> = Vec::new();
        proof {
            assert(declarations@.map_values(|d: Declaration| d@) =~= Seq::<DeclarationV>::empty());
        }
        loop
            invariant
                self.wf(),
                self.input@ == s,
                old(self).pos < self.pos,
                parse_decl_items_spec(s, self.pos as int, declarations@.map_values(
                    |d: Declaration| d@,
                )) == parse_decl_items_spec(s, old(self).pos as int + 1, Seq::empty()),
            decreases s.len() - self.pos,
        {
            let ghost loop_pos = self.pos as int;
            let ghost accv = declarations@.map_values(|d: Declaration| d@);
            self.consume_whitespace();
            if self.eof() {
                return Err(ParseError::UnexpectedEndOfInput);
            }
            if self.next_char() == '}' {
                let _ = self.consume_char();
                return Ok(declarations);
            }
            let ghost p1 = self.pos as int;
            let decl = match self.parse_declaration() {
                Ok(d) => d,
                Err(e) => {
                    return Err(e);
                },
            };
            declarations.push(decl);
            proof {
                assert(declarations@.map_values(|d: Declaration| d@) =~= accv.push(decl@));
                assert(parse_decl_items_spec(s, loop_pos, accv) == parse_decl_items_spec(
                    s,
                    self.pos as int,
                    accv.push(decl@),
                ));
            }
        }
    }

    /// Parse one simple selector, e.g. `type#id.class1.class2.class3`.
    #[verifier::loop_isolation(false)]
    fn parse_simple_selector(&mut self) -> (r: SimpleSelector)
        requires
            old(self).wf(),
        ensures
            final(self).input@ == old(self).input@,
            final(self).wf(),
            old(self).pos <= final(self).pos,
            parse_simple_selector_spec(
                old(self).input@,
                old(self).pos as int,
                SimpleSelectorV { tag_name: None, id: None, class: Seq::empty() },
            ) == (r@, final(self).pos as int),
    {
        let ghost s = self.input@;
        let mut selector = SimpleSelector { tag_name: None, id: None, class: Vec::new() };
        proof {
            assert(selector@.class =~= Seq::<Seq<char>>::empty());
        }
        loop
            invariant
                self.wf(),
                self.input@ == s,
                old(self).pos <= self.pos,
                parse_simple_selector_spec(s, self.pos as int, selector@)
                    == parse_simple_selector_spec(
                    s,
                    old(self).pos as int,
                    SimpleSelectorV { tag_name: None, id: None, class: Seq::empty() },
                ),
            decreases s.len() - self.pos,
        {
            let ghost loop_pos = self.pos as int;
            let ghost selv = selector@;
            if self.eof() {
                return selector;
            }
            let c = self.next_char();
            if c == '#' {
                let _ = self.consume_char();
                selector.id = Some(self.parse_identifier());
                proof {
                    assert(selector@ == (SimpleSelectorV {
                        id: Some(s.subrange(loop_pos + 1, self.pos as int)),
                        ..selv
                    }));
                }
            } else if c == '.' {
                let name = {
                    let _ = self.consume_char();
                    self.parse_identifier()
                };
                selector.class.push(name);
                proof {
                    assert(selector@.class =~= selv.class.push(
                        s.subrange(loop_pos + 1, self.pos as int),
                    ));
                    assert(selector@ == (SimpleSelectorV {
                        class: selv.class.push(s.subrange(loop_pos + 1, self.pos as int)),
                        ..selv
                    }));
                }
            } else if c == '*' {
                // universal selector
                let _ = self.consume_char();
            } else if crate::text::valid_identifier_char(c) {
                proof {
                    lemma_scan_end_bounds(s, loop_pos + 1, CharClass::Identifier);
                }
                selector.tag_name = Some(self.parse_identifier());
                proof {
                    assert(selector@ == (SimpleSelectorV {
                        tag_name: Some(s.subrange(loop_pos, self.pos as int)),
                        ..selv
                    }));
                }
            } else {
                return selector;
            }
        }
    }

    /// Parse a comma-separated list of selectors, returned with the highest
    /// specificity first.
    #[verifier::loop_isolation(false)]
    fn parse_selectors(&mut self) -> (r: Result<Vec<Selector>, ParseError>)
        requires
            old(self).wf(),
        ensures
            final(self).input@ == old(self).input@,
            final(self).wf(),
            match r {
                Ok(sels) => parse_selectors_spec(old(self).input@, old(self).pos as int, Seq::empty())
                    == Ok::<_, ParseError>(
                    (sels@.map_values(|sel: Selector| sel@), final(self).pos as int),
                ) && old(self).pos <= final(self).pos,
                Err(e) => parse_selectors_spec(old(self).input@, old(self).pos as int, Seq::empty())
                    == Err::<(Seq<SelectorV>, int), _>(e),
            },
    {
        let ghost s = self.input@;
        let mut selectors: Vec<Selector> = Vec::new();
        proof {
            assert(selectors@.map_values(|sel: Selector| sel@) =~= Seq::<SelectorV>::empty());
        }
        loop
            invariant
                self.wf(),
                self.input@ == s,
                old(self).pos <= self.pos,
                parse_selectors_spec(s, self.pos as int, selectors@.map_values(
                    |sel: Selector| sel@,
                )) == parse_selectors_spec(s, old(self).pos as int, Seq::empty()),
            decreases s.len() - self.pos,
        {
            let ghost loop_pos = self.pos as int;
            let ghost accv = selectors@.map_values(|sel: Selector| sel@);
            let simple = self.parse_simple_selector();
            selectors.push(Selector::Simple(simple));
            proof {
                assert(selectors@.map_values(|sel: Selector| sel@) =~= accv.push(
                    selectors@.last()@,
                ));
            }
            self.consume_whitespace();
            if self.eof() {
                return Err(ParseError::UnexpectedEndOfInput);
            }
            let c = self.next_char();
            if c == ',' {
                let _ = self.consume_char();
                self.consume_whitespace();
                proof {
                    assert(parse_selectors_spec(s, loop_pos, accv) == parse_selectors_spec(
                        s,
                        self.pos as int,
                        selectors@.map_values(|sel: Selector| sel@),
                    ));
                }
            } else if c == '{' {
                // Return selectors with highest specificity first, for use
                // in matching.
                let ghost sels = selectors@.map_values(|sel: Selector| sel@);
                proof {
                    assert(parse_selectors_spec(s, loop_pos, accv) == Ok::<_, ParseError>((
                        sort_desc(sels),
                        self.pos as int,
                    )));
                }
                let sorted = sort_selectors(selectors);
                return Ok(sorted);
            } else {
                return Err(ParseError::UnexpectedCharacter);
            }
        }
    }

    /// Parse a rule set: `<selectors> { <declarations> }`.
    fn parse_rule(&mut self) -> (r: Result<Rule, ParseError>)
        requires
            old(self).wf(),
        ensures
            final(self).input@ == old(self).input@,
            final(self).wf(),
            match r {
                Ok(rule) => parse_rule_spec(old(self).input@, old(self).pos as int) == Ok::<
                    _,
                    ParseError,
                >((rule@, final(self).pos as int)) && old(self).pos < final(self).pos,
                Err(e) => parse_rule_spec(old(self).input@, old(self).pos as int) == Err::<
                    (RuleV, int),
                    _,
                >(e),
            },
    {
        let selectors = match self.parse_selectors() {
            Ok(sels) => sels,
            Err(e) => {
                return Err(e);
            },
        };
        let declarations = match self.parse_declarations() {
            Ok(ds) => ds,
            Err(e) => {
                return Err(e);
            },
        };
        Ok(Rule { selectors, declarations })
    }

    /// Parse a list of rule sets, separated by optional whitespace.
    #[verifier::loop_isolation(false)]
    fn parse_rules(&mut self) -> (r: Result<Vec<Rule>, ParseError>)
        requires
            old(self).wf(),
        ensures
            final(self).input@ == old(self).input@,
            final(self).wf(),
            match r {
                Ok(rules) => parse_rules_spec(old(self).input@, old(self).pos as int, Seq::empty())
                    == Ok::<_, ParseError>(
                    (rules@.map_values(|rule: Rule| rule@), final(self).pos as int),
                ),
                Err(e) => parse_rules_spec(old(self).input@, old(self).pos as int, Seq::empty())
                    == Err::<(Seq<RuleV>, int), _>(e),
            },
    {
        let ghost s = self.input@;
        let mut rules: Vec<Rule> = Vec::new();
        proof {
            assert(rules@.map_values(|rule: Rule| rule@) =~= Seq::<RuleV>::empty());
        }
        loop
            invariant
                self.wf(),
                self.input@ == s,
                parse_rules_spec(s, self.pos as int, rules@.map_values(|rule: Rule| rule@))
                    == parse_rules_spec(s, old(self).pos as int, Seq::empty()),
            decreases s.len() - self.pos,
        {
            let ghost loop_pos = self.pos as int;
            let ghost accv = rules@.map_values(|rule: Rule| rule@);
            self.consume_whitespace();
            if self.eof() {
                return Ok(rules);
            }
            let rule = match self.parse_rule() {
                Ok(rule) => rule,
                Err(e) => {
                    return Err(e);
                },
            };
            rules.push(rule);
            proof {
                assert(rules@.map_values(|rule: Rule| rule@) =~= accv.push(rule@));
                assert(parse_rules_spec(s, loop_pos, accv) == parse_rules_spec(
                    s,
                    self.pos as int,
                    accv.push(rule@),
                ));
            }
        }
    }
}

/// A parsed colour ends no earlier than it starts and within the input.
pub proof fn lemma_parse_color_bounds(s: Seq<char>, pos: int)
    requires
        0 <= pos <= s.len(),
    ensures
        parse_color_spec(s, pos) matches Ok(v) ==> pos <= v.1 <= s.len(),
{
}

/// The value of a hexadecimal digit.
fn hex_digit_value(c: char) -> (r: Option<u8>)
    ensures
        match r {
            Some(v) => is_hex_digit(c) && v as int == hex_val(c) && v < 16,
            None => !is_hex_digit(c),
        },
{
    let u = c as u32;
    if 48 <= u && u <= 57 {
        Some((u - 48) as u8)
    } else if 97 <= u && u <= 102 {
        Some((u - 97 + 10) as u8)
    } else if 65 <= u && u <= 70 {
        Some((u - 65 + 10) as u8)
    } else {
        None
    }
}

/// Whether `a`'s specificity sorts no higher than `b`'s.
fn specificity_le(a: &Selector, b: &Selector) -> (r: bool)
    ensures
        r == spec_le(spec_specificity(a@), spec_specificity(b@)),
{
    let sa = a.specificity();
    let sb = b.specificity();
    sa.0 < sb.0 || (sa.0 == sb.0 && (sa.1 < sb.1 || (sa.1 == sb.1 && sa.2 <= sb.2)))
}

/// Insert a selector into a descending list, after any of equal specificity.
fn insert_selector(v: &mut Vec<Selector>, x: Selector)
    ensures
        final(v)@.map_values(|sel: Selector| sel@) == insert_desc(
            old(v)@.map_values(|sel: Selector| sel@),
            x@,
        ),
    decreases old(v)@.len(),
{
    let ghost oldv = v@.map_values(|sel: Selector| sel@);
    if v.len() == 0 {
        v.push(x);
        proof {
            assert(v@.map_values(|sel: Selector| sel@) =~= seq![x@]);
        }
    } else {
        let le = specificity_le(&x, &v[v.len() - 1]);
        proof {
            assert(oldv.last() == v@.last()@);
        }
        if le {
            v.push(x);
            proof {
                assert(v@.map_values(|sel: Selector| sel@) =~= oldv.push(x@));
            }
        } else {
            let last = match v.pop() {
                Some(l) => l,
                None => {
                    proof {
                        assert(false);
                    }
                    Selector::Simple(
                        SimpleSelector { tag_name: None, id: None, class: Vec::new() },
                    )
                },
            };
            proof {
                assert(v@.map_values(|sel: Selector| sel@) =~= oldv.drop_last());
            }
            insert_selector(v, x);
            v.push(last);
            proof {
                assert(v@.map_values(|sel: Selector| sel@) =~= insert_desc(
                    oldv.drop_last(),
                    x@,
                ).push(oldv.last()));
            }
        }
    }
}

/// Sort selectors by descending specificity; equal keys keep their order.
#[verifier::loop_isolation(false)]
fn sort_selectors(input: Vec<Selector>) -> (r: Vec<Selector>)
    ensures
        r@.map_values(|sel: Selector| sel@) == sort_desc(input@.map_values(|sel: Selector| sel@)),
{
    let ghost inv = input@.map_values(|sel: Selector| sel@);
    let mut rest = input;
    let mut sorted: Vec<Selector> = Vec::new();
    proof {
        assert(rest@.map_values(|sel: Selector| sel@) =~= inv.subrange(0, inv.len() as int));
        assert(sorted@.map_values(|sel: Selector| sel@) =~= sort_desc(inv.subrange(0, 0)));
        assert(inv.subrange(0, 0).len() == 0);
    }
    while rest.len() > 0
        invariant
            rest@.map_values(|sel: Selector| sel@) == inv.subrange(
                inv.len() - rest@.len(),
                inv.len() as int,
            ),
            rest@.len() <= inv.len(),
            sorted@.map_values(|sel: Selector| sel@) == sort_desc(
                inv.subrange(0, inv.len() - rest@.len()),
            ),
        decreases rest@.len(),
    {
        let ghost k = inv.len() - rest@.len();
        let ghost rb = rest@;
        let x = rest.remove(0);
        proof {
            assert(rb.map_values(|sel: Selector| sel@)[0] == rb[0]@);
            assert(x@ == inv[k]);
            assert(rest@.map_values(|sel: Selector| sel@) =~= inv.subrange(
                k + 1,
                inv.len() as int,
            )) by {
                assert forall|j: int| #![trigger rest@[j]] 0 <= j < rest@.len() implies rest@.map_values(
                    |sel: Selector| sel@,
                )[j] == inv.subrange(k + 1, inv.len() as int)[j] by {
                    assert(rest@[j] == rb[j + 1]);
                    assert(rb.map_values(|sel: Selector| sel@)[j + 1] == rb[j + 1]@);
                    assert(rest@.map_values(|sel: Selector| sel@)[j] == rest@[j]@);
                }
            }
        }
        insert_selector(&mut sorted, x);
        proof {
            let pre = inv.subrange(0, k + 1);
            assert(pre.drop_last() =~= inv.subrange(0, k));
            assert(pre.last() == inv[k]);
        }
    }
    proof {
        assert(inv.subrange(0, inv.len() as int) =~= inv);
    }
    sorted
}

} // verus!
