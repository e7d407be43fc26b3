//! The HTML parser: a recursive-descent scanner from text to a document
//! tree. A document with a single root element yields that element; anything
//! else is wrapped in a synthesized `html` element.
//!
//! As in the CSS parser, every step is mirrored by a specification function
//! over the character sequence and the current position.

use vstd::prelude::*;

use crate::assoc::assoc_insert;
use crate::dom::{AttrMap, ElementDataV, Node, NodeTypeV, NodeV};
use crate::encoding::{Confidence, Encoding};
use crate::parse_state::ParseState;
use crate::text::{chars_of, scan_class, scan_end, lemma_scan_end_bounds, CharClass, ParseError};

verus! {

use vstd::string::StrSliceExecFns;

/// The position where whitespace starting at `pos` ends.
pub open spec fn ws_end(s: Seq<char>, pos: int) -> int {
    scan_end(s, pos, CharClass::Whitespace)
}

/// A text node: everything up to the next `<`.
pub open spec fn parse_text_spec(s: Seq<char>, pos: int) -> (NodeV, int) {
    let end = scan_end(s, pos, CharClass::NotChar('<'));
    (NodeV { children: Seq::empty(), node_type: NodeTypeV::Text(s.subrange(pos, end)) }, end)
}

/// A quoted attribute value: an opening quote, the characters up to the
/// matching quote, and the closing quote.
pub open spec fn parse_attr_value_spec(s: Seq<char>, pos: int) -> Result<
    (Seq<char>, int),
    ParseError,
> {
    if pos >= s.len() {
        Err(ParseError::UnexpectedEndOfInput)
    } else if s[pos] != '"' && s[pos] != '\'' {
        Err(ParseError::UnexpectedCharacter)
    } else {
        let q = s[pos];
        let end = scan_end(s, pos + 1, CharClass::NotChar(q));
        if end >= s.len() {
            Err(ParseError::UnexpectedEndOfInput)
        } else {
            Ok((s.subrange(pos + 1, end), end + 1))
        }
    }
}

/// A single `name="value"` pair.
pub open spec fn parse_attr_spec(s: Seq<char>, pos: int) -> Result<
    ((Seq<char>, Seq<char>), int),
    ParseError,
> {
    let e1 = scan_end(s, pos, CharClass::TagName);
    let name = s.subrange(pos, e1);
    if e1 >= s.len() {
        Err(ParseError::UnexpectedEndOfInput)
    } else if s[e1] != '=' {
        Err(ParseError::UnexpectedCharacter)
    } else {
        match parse_attr_value_spec(s, e1 + 1) {
            Ok((value, p2)) => Ok(((name, value), p2)),
            Err(e) => Err(e),
        }
    }
}

/// A whitespace-separated list of `name="value"` pairs, up to (but not
/// including) the closing `>`; a repeated name keeps the last value.
pub open spec fn parse_attributes_spec(
    s: Seq<char>,
    pos: int,
    acc: Seq<(Seq<char>, Seq<char>)>,
) -> Result<(Seq<(Seq<char>, Seq<char>)>, int), ParseError>
    decreases s.len() - pos,
{
    let p1 = ws_end(s, pos);
    if p1 >= s.len() {
        Err(ParseError::UnexpectedEndOfInput)
    } else if s[p1] == '>' {
        Ok((acc, p1))
    } else {
        match parse_attr_spec(s, p1) {
            Ok(((name, value), p2)) => if pos < p2 <= s.len() {
                parse_attributes_spec(s, p2, assoc_insert(acc, name, value))
            } else {
                Err(ParseError::UnexpectedCharacter)
            },
            Err(e) => Err(e),
        }
    }
}

/// A single element: its open tag with attributes, its contents, and a
/// matching close tag.
pub open spec fn parse_element_spec(s: Seq<char>, pos: int) -> Result<(NodeV, int), ParseError>
    decreases s.len() - pos, 0int,
{
    if pos < 0 || pos >= s.len() || s[pos] != '<' {
        Err(ParseError::UnexpectedCharacter)
    } else {
        let e1 = scan_end(s, pos + 1, CharClass::TagName);
        let tag = s.subrange(pos + 1, e1);
        match parse_attributes_spec(s, e1, Seq::empty()) {
            Ok((attrs, p2)) => {
                // The attribute scan stops right at the `>`.
                if pos < p2 + 1 <= s.len() {
                    match parse_nodes_spec(s, p2 + 1, Seq::empty()) {
                        Ok((children, p3)) => {
                            if p3 + 2 > s.len() || s[p3] != '<' || s[p3 + 1] != '/' {
                                Err(ParseError::UnexpectedEndOfInput)
                            } else {
                                let e2 = scan_end(s, p3 + 2, CharClass::TagName);
                                if s.subrange(p3 + 2, e2) != tag {
                                    Err(ParseError::MismatchedCloseTag)
                                } else if e2 >= s.len() {
                                    Err(ParseError::UnexpectedEndOfInput)
                                } else if s[e2] != '>' {
                                    Err(ParseError::UnexpectedCharacter)
                                } else {
                                    Ok(
                                        (
                                            NodeV {
                                                children,
                                                node_type: NodeTypeV::Element(
                                                    ElementDataV { tag_name: tag, attributes: attrs },
                                                ),
                                            },
                                            e2 + 1,
                                        ),
                                    )
                                }
                            }
                        },
                        Err(e) => Err(e),
                    }
                } else {
                    Err(ParseError::UnexpectedCharacter)
                }
            },
            Err(e) => Err(e),
        }
    }
}

/// A single node: an element after `<`, a text node otherwise.
pub open spec fn parse_node_spec(s: Seq<char>, pos: int) -> Result<(NodeV, int), ParseError>
    decreases s.len() - pos, 1int,
{
    if pos < 0 || pos >= s.len() {
        Err(ParseError::UnexpectedEndOfInput)
    } else if s[pos] == '<' {
        parse_element_spec(s, pos)
    } else {
        Ok(parse_text_spec(s, pos))
    }
}

/// A sequence of sibling nodes, up to the end of the input or a closing
/// tag, collected onto `acc`.
pub open spec fn parse_nodes_spec(s: Seq<char>, pos: int, acc: Seq<NodeV>) -> Result<
    (Seq<NodeV>, int),
    ParseError,
>
    decreases s.len() - pos, 2int,
{
    let p1 = ws_end(s, pos);
    if p1 >= s.len() || (p1 + 2 <= s.len() && s[p1] == '<' && s[p1 + 1] == '/') {
        Ok((acc, p1))
    } else {
        if pos <= p1 <= s.len() {
            match parse_node_spec(s, p1) {
                Ok((node, p2)) => if pos < p2 <= s.len() {
                    parse_nodes_spec(s, p2, acc.push(node))
                } else {
                    Err(ParseError::UnexpectedCharacter)
                },
                Err(e) => Err(e),
            }
        } else {
            Err(ParseError::UnexpectedCharacter)
        }
    }
}

/// The document a source text parses to: its sibling nodes, with a single
/// root element returned as is and anything else wrapped in a synthesized
/// `html` element.
pub open spec fn run_spec(s: Seq<char>, pos: int) -> Result<NodeV, ParseError> {
    match parse_nodes_spec(s, pos, Seq::empty()) {
        Ok((nodes, _)) => if nodes.len() == 1 {
            Ok(nodes[0])
        } else {
            Ok(
                NodeV {
                    children: nodes,
                    node_type: NodeTypeV::Element(
                        ElementDataV { tag_name: "html"@, attributes: Seq::empty() },
                    ),
                },
            )
        },
        Err(e) => Err(e),
    }
}

/// Relies on `str::chars` via [`crate::text::chars_of`]; nothing here is
/// trusted, the declaration only names the decoded view of a UTF-16 input.
/// The characters `String::from_utf16` decodes a sequence of UTF-16 code
/// units to, when they are a well-formed encoding.
pub uninterp spec fn utf16_decode(units: Seq<u16>) -> Option<Seq<char>>;

/// Relies on `String::from_utf8`: it succeeds exactly on valid UTF-8, and
/// the bytes are the UTF-8 encoding of the returned string's characters
/// (the same correspondence vstd states for `str::from_utf8_unchecked`).
#[verifier::external_body]
fn string_from_utf8(bytes: Vec<u8>) -> (r: Option<String>)
    ensures
        r is Some <==> vstd::utf8::valid_utf8(bytes@),
        r matches Some(s) ==> vstd::utf8::encode_utf8(s@) == bytes@,
{
    String::from_utf8(bytes).ok()
}

/// Relies on `String::from_utf16`: the result depends on the code units
/// alone; it succeeds exactly when they are a well-formed UTF-16 encoding,
/// and then returns their decoding.
#[verifier::external_body]
fn string_from_utf16(units: &Vec<u16>) -> (r: Option<String>)
    ensures
        r is Some <==> utf16_decode(units@) is Some,
        r matches Some(s) ==> Some(s@) == utf16_decode(units@),
{
    String::from_utf16(units.as_slice()).ok()
}

/// The HTML parser's state: the input characters, the current position, and
/// the encoding and tree-construction state of the parsing model.
pub struct Parser {
    // Properties from the parsing model of the specification
    encoding: Encoding,
    confidence: Confidence,
    parse_state: ParseState,
    /// The script nesting level, initially zero.
    script_nesting_level: u32,
    /// The parser pause flag, initially false.
    pause_flag: bool,
    // Properties for internal use
    input: Vec<char>,
    pos: usize,
}

impl View for Parser {
    type V = Seq<char>;

    closed spec fn view(&self) -> Seq<char> {
        self.input@
    }
}

impl Parser {
    /// The current position; it never runs past the end of the input.
    pub closed spec fn spec_pos(self) -> int {
        self.pos as int
    }

    /// The position never runs past the end of the input.
    pub closed spec fn wf(self) -> bool {
        self.pos <= self.input@.len()
    }

    /// A parser over the characters of a string, certain of its encoding.
    pub fn from_string(input: String) -> (p: Self)
        ensures
            p@ == input@,
            p.spec_pos() == 0,
            p.wf(),
    {
        Parser {
            input: chars_of(input.as_str()),
            pos: 0,
            encoding: Encoding::Utf8,
            confidence: Confidence::Certain,
            parse_state: ParseState::default(),
            script_nesting_level: 0,
            pause_flag: false,
        }
    }

    /// A parser over a UTF-8 byte stream; bytes that are not valid UTF-8
    /// yield nothing.
    pub fn from_bytes_utf8(input: Vec<u8>) -> (r: Option<Self>)
        ensures
            r is Some <==> vstd::utf8::valid_utf8(input@),
            r matches Some(p) ==> vstd::utf8::encode_utf8(p@) == input@ && p.spec_pos() == 0
                && p.wf(),
    {
        match string_from_utf8(input) {
            Some(text) => Some(
                Parser {
                    input: chars_of(text.as_str()),
                    pos: 0,
                    encoding: Encoding::Utf8,
                    confidence: Confidence::Certain,
                    parse_state: ParseState::default(),
                    script_nesting_level: 0,
                    pause_flag: false,
                },
            ),
            None => None,
        }
    }

    /// A parser over a UTF-16 stream of code units; units that are not a
    /// well-formed encoding yield nothing.
    pub fn from_bytes_utf16(input: Vec<u16>) -> (r: Option<Self>)
        ensures
            r is Some <==> utf16_decode(input@) is Some,
            r matches Some(p) ==> Some(p@) == utf16_decode(input@) && p.spec_pos() == 0 && p.wf(),
    {
        match string_from_utf16(&input) {
            Some(text) => Some(
                Parser {
                    input: chars_of(text.as_str()),
                    pos: 0,
                    encoding: Encoding::Utf16,
                    confidence: Confidence::Certain,
                    parse_state: ParseState::default(),
                    script_nesting_level: 0,
                    pause_flag: false,
                },
            ),
            None => None,
        }
    }

    /// Parse an HTML document and return the root element: the one root the
    /// document has, or a synthesized `html` element holding the siblings.
    pub fn run(&mut self) -> (r: Result<Node, ParseError>)
        requires
            old(self).wf(),
        ensures
            final(self)@ == old(self)@,
            final(self).wf(),
            match r {
                Ok(n) => run_spec(old(self)@, old(self).spec_pos()) == Ok::<_, ParseError>(n@),
                Err(e) => run_spec(old(self)@, old(self).spec_pos()) == Err::<NodeV, _>(e),
            },
    {
        let mut nodes = match self.parse_nodes() {
            Ok(ns) => ns,
            Err(e) => {
                return Err(e);
            },
        };
        // If the document contains a root element, just return it.
        // Otherwise, create one.
        if nodes.len() == 1 {
            let root = match nodes.pop() {
                Some(n) => n,
                None => {
                    proof {
                        assert(false);
                    }
                    Node::text(String::new())
                },
            };
            Ok(root)
        } else {
            let ghost nodesv = nodes@.map_values(|n: Node| n@);
            let root = Node::elem("html".to_owned(), AttrMap::new(), nodes);
            proof {
                assert(root@.children == nodesv);
            }
            Ok(root)
        }
    }

    /// Return true if all input is consumed.
    fn eof(&self) -> (r: bool)
        ensures
            r == (self.spec_pos() >= self@.len()),
    {
        self.pos >= self.input.len()
    }

    /// Read the current character without consuming it.
    fn next_char(&self) -> (c: char)
        requires
            self.spec_pos() < self@.len(),
        ensures
            c == self@[self.spec_pos()],
    {
        self.input[self.pos]
    }

    /// Do the next characters start with the given string?
    fn starts_with(&self, s: &str) -> (r: bool)
        requires
            self.wf(),
        ensures
            r == (self.spec_pos() + s@.len() <= self@.len() && self@.subrange(
                self.spec_pos(),
                self.spec_pos() + s@.len(),
            ) == s@),
    {
        let n = s.unicode_len();
        if n > self.input.len() - self.pos {
            return false;
        }
        let mut i: usize = 0;
        while i < n
            invariant
                self.wf(),
                n == s@.len(),
                self.spec_pos() + n <= self@.len(),
                i <= n,
                forall|j: int| 0 <= j < i ==> self@[self.spec_pos() + j] == s@[j],
            decreases n - i,
        {
            proof {
                assert(vstd::std_specs::vec::spec_vec_len(&self.input) == self.input@.len());
            }
            if self.input[self.pos + i] != s.get_char(i) {
                return false;
            }
            i = i + 1;
        }
        proof {
            assert(self@.subrange(self.spec_pos(), self.spec_pos() + s@.len()) =~= s@);
        }
        true
    }

    /// Return the current character, and advance past it.
    fn consume_char(&mut self) -> (c: char)
        requires
            old(self).spec_pos() < old(self)@.len(),
        ensures
            c == old(self)@[old(self).spec_pos()],
            final(self)@ == old(self)@,
            final(self).spec_pos() == old(self).spec_pos() + 1,
    {
        let c = self.input[self.pos];
        proof {
            assert(vstd::std_specs::vec::spec_vec_len(&self.input) == self.input@.len());
        }
        self.pos = self.pos + 1;
        c
    }

    /// Consume characters of the given class until one outside it.
    fn consume_while(&mut self, class: CharClass) -> (r: String)
        requires
            old(self).wf(),
        ensures
            final(self)@ == old(self)@,
            final(self).wf(),
            final(self).spec_pos() == scan_end(old(self)@, old(self).spec_pos(), class),
            old(self).spec_pos() <= final(self).spec_pos(),
            r@ == old(self)@.subrange(old(self).spec_pos(), final(self).spec_pos()),
    {
        let (s, end) = scan_class(&self.input, self.pos, class);
        self.pos = end;
        s
    }

    /// Consume and discard zero or more whitespace characters.
    fn consume_whitespace(&mut self)
        requires
            old(self).wf(),
        ensures
            final(self)@ == old(self)@,
            final(self).wf(),
            final(self).spec_pos() == ws_end(old(self)@, old(self).spec_pos()),
            old(self).spec_pos() <= final(self).spec_pos(),
    {
        let _ = self.consume_while(CharClass::Whitespace);
    }

    /// Parse a tag or attribute name: letters and digits.
    fn parse_tag_name(&mut self) -> (r: String)
        requires
            old(self).wf(),
        ensures
            final(self)@ == old(self)@,
            final(self).wf(),
            final(self).spec_pos() == scan_end(old(self)@, old(self).spec_pos(), CharClass::TagName),
            old(self).spec_pos() <= final(self).spec_pos(),
            r@ == old(self)@.subrange(old(self).spec_pos(), final(self).spec_pos()),
    {
        self.consume_while(CharClass::TagName)
    }

    /// Parse a text node.
    fn parse_text(&mut self) -> (r: Node)
        requires
            old(self).wf(),
        ensures
            final(self)@ == old(self)@,
            final(self).wf(),
            old(self).spec_pos() <= final(self).spec_pos(),
            parse_text_spec(old(self)@, old(self).spec_pos()) == (r@, final(self).spec_pos()),
    {
        let data = self.consume_while(CharClass::NotChar('<'));
        let r = Node::text(data);
        proof {
            assert(r@.children =~= Seq::<NodeV>::empty());
        }
        r
    }

    /// Parse a quoted value.
    fn parse_attr_value(&mut self) -> (r: Result<String, ParseError>)
        requires
            old(self).wf(),
        ensures
            final(self)@ == old(self)@,
            final(self).wf(),
            match r {
                Ok(v) => parse_attr_value_spec(old(self)@, old(self).spec_pos()) == Ok::<
                    _,
                    ParseError,
                >((v@, final(self).spec_pos())) && old(self).spec_pos() < final(self).spec_pos(),
                Err(e) => parse_attr_value_spec(old(self)@, old(self).spec_pos()) == Err::<
                    (Seq<char>, int),
                    _,
                >(e),
            },
    {
        if self.eof() {
            return Err(ParseError::UnexpectedEndOfInput);
        }
        let open_quote = self.next_char();
        if open_quote != '"' && open_quote != '\'' {
            return Err(ParseError::UnexpectedCharacter);
        }
        let _ = self.consume_char();
        let value = self.consume_while(CharClass::NotChar(open_quote));
        if self.eof() {
            return Err(ParseError::UnexpectedEndOfInput);
        }
        let _ = self.consume_char();
        Ok(value)
    }

    /// Parse a single `name="value"` pair.
    fn parse_attr(&mut self) -> (r: Result<(String, String), ParseError>)
        requires
            old(self).wf(),
        ensures
            final(self)@ == old(self)@,
            final(self).wf(),
            match r {
                Ok(nv) => parse_attr_spec(old(self)@, old(self).spec_pos()) == Ok::<
                    _,
                    ParseError,
                >(((nv.0@, nv.1@), final(self).spec_pos()))
                    && old(self).spec_pos() < final(self).spec_pos(),
                Err(e) => parse_attr_spec(old(self)@, old(self).spec_pos()) == Err::<
                    ((Seq<char>, Seq<char>), int),
                    _,
                >(e),
            },
    {
        let name = self.parse_tag_name();
        if self.eof() {
            return Err(ParseError::UnexpectedEndOfInput);
        }
        if self.next_char() != '=' {
            return Err(ParseError::UnexpectedCharacter);
        }
        let _ = self.consume_char();
        let value = match self.parse_attr_value() {
            Ok(v) => v,
            Err(e) => {
                return Err(e);
            },
        };
        Ok((name, value))
    }

    /// Parse a list of `name="value"` pairs, separated by whitespace, up to
    /// the closing `>` of the open tag.
    #[verifier::loop_isolation(false)]
    fn parse_attributes(&mut self) -> (r: Result<AttrMap, ParseError>)
        requires
            old(self).wf(),
        ensures
            final(self)@ == old(self)@,
            final(self).wf(),
            match r {
                Ok(attrs) => parse_attributes_spec(old(self)@, old(self).spec_pos(), Seq::empty())
                    == Ok::<_, ParseError>((attrs@, final(self).spec_pos())) && old(self).spec_pos()
                    <= final(self).spec_pos() && final(self).spec_pos() < final(self)@.len()
                    && final(self)@[final(self).spec_pos()] == '>',
                Err(e) => parse_attributes_spec(old(self)@, old(self).spec_pos(), Seq::empty())
                    == Err::<(Seq<(Seq<char>, Seq<char>)>, int), _>(e),
            },
    {
        let ghost s = self.input@;
        let mut attributes = AttrMap::new();
        loop
            invariant
                self.wf(),
                self.input@ == s,
                old(self).spec_pos() <= self.spec_pos(),
                parse_attributes_spec(s, self.spec_pos(), attributes@) == parse_attributes_spec(
                    s,
                    old(self).spec_pos(),
                    Seq::empty(),
                ),
            decreases s.len() - self.pos,
        {
            let ghost loop_pos = self.spec_pos();
            let ghost accv = attributes@;
            self.consume_whitespace();
            if self.eof() {
                return Err(ParseError::UnexpectedEndOfInput);
            }
            if self.next_char() == '>' {
                return Ok(attributes);
            }
            let (name, value) = match self.parse_attr() {
                Ok(nv) => nv,
                Err(e) => {
                    return Err(e);
                },
            };
            let ghost namev = name@;
            let ghost valuev = value@;
            attributes.insert(name, value);
            proof {
                assert(parse_attributes_spec(s, loop_pos, accv) == parse_attributes_spec(
                    s,
                    self.spec_pos(),
                    assoc_insert(accv, namev, valuev),
                ));
            }
        }
    }

    /// Parse a single node.
    fn parse_node(&mut self) -> (r: Result<Node, ParseError>)
        requires
            old(self).wf(),
        ensures
            final(self)@ == old(self)@,
            final(self).wf(),
            match r {
                Ok(n) => parse_node_spec(old(self)@, old(self).spec_pos()) == Ok::<
                    _,
                    ParseError,
                >((n@, final(self).spec_pos())) && old(self).spec_pos() <= final(self).spec_pos(),
                Err(e) => parse_node_spec(old(self)@, old(self).spec_pos()) == Err::<
                    (NodeV, int),
                    _,
                >(e),
            },
        decreases old(self)@.len() - old(self).spec_pos(), 1int,
    {
        if self.eof() {
            return Err(ParseError::UnexpectedEndOfInput);
        }
        if self.next_char() == '<' {
            self.parse_element()
        } else {
            Ok(self.parse_text())
        }
    }

    /// Parse a single element, including its open tag, contents, and closing
    /// tag.
    #[verifier::loop_isolation(false)]
    fn parse_element(&mut self) -> (r: Result<Node, ParseError>)
        requires
            old(self).wf(),
            old(self).spec_pos() < old(self)@.len(),
            old(self)@[old(self).spec_pos()] == '<',
        ensures
            final(self)@ == old(self)@,
            final(self).wf(),
            match r {
                Ok(n) => parse_element_spec(old(self)@, old(self).spec_pos()) == Ok::<
                    _,
                    ParseError,
                >((n@, final(self).spec_pos())) && old(self).spec_pos() <= final(self).spec_pos(),
                Err(e) => parse_element_spec(old(self)@, old(self).spec_pos()) == Err::<
                    (NodeV, int),
                    _,
                >(e),
            },
        decreases old(self)@.len() - old(self).spec_pos(), 0int,
    {
        let ghost s = self.input@;
        let ghost pos0 = self.spec_pos();
        // Opening tag.
        let _ = self.consume_char();
        let tag_name = self.parse_tag_name();
        let attrs = match self.parse_attributes() {
            Ok(a) => a,
            Err(e) => {
                return Err(e);
            },
        };
        // The attribute scan stopped right at the `>`.
        let _ = self.consume_char();
        // Contents.
        let children = match self.parse_nodes() {
            Ok(ns) => ns,
            Err(e) => {
                return Err(e);
            },
        };
        // Closing tag.
        if self.input.len() - self.pos < 2 {
            return Err(ParseError::UnexpectedEndOfInput);
        }
        if self.next_char() != '<' {
            return Err(ParseError::UnexpectedEndOfInput);
        }
        let _ = self.consume_char();
        if self.next_char() != '/' {
            return Err(ParseError::UnexpectedEndOfInput);
        }
        let _ = self.consume_char();
        let close_name = self.parse_tag_name();
        if !crate::text::eq_str(close_name.as_str(), tag_name.as_str()) {
            return Err(ParseError::MismatchedCloseTag);
        }
        if self.eof() {
            return Err(ParseError::UnexpectedEndOfInput);
        }
        if self.next_char() != '>' {
            return Err(ParseError::UnexpectedCharacter);
        }
        let _ = self.consume_char();
        let ghost tagv = tag_name@;
        let ghost attrsv = attrs@;
        let ghost childrenv = children@.map_values(|c: Node| c@);
        let node = Node::elem(tag_name, attrs, children);
        proof {
            assert(node@ == (NodeV {
                children: childrenv,
                node_type: NodeTypeV::Element(ElementDataV { tag_name: tagv, attributes: attrsv }),
            }));
        }
        Ok(node)
    }

    /// Parse a sequence of sibling nodes, up to the end of the input or a
    /// closing tag.
    #[verifier::loop_isolation(false)]
    fn parse_nodes(&mut self) -> (r: Result<Vec<Node>, ParseError>)
        requires
            old(self).wf(),
        ensures
            final(self)@ == old(self)@,
            final(self).wf(),
            match r {
                Ok(ns) => parse_nodes_spec(old(self)@, old(self).spec_pos(), Seq::empty()) == Ok::<
                    _,
                    ParseError,
                >(
                    (ns@.map_values(|n: Node| n@), final(self).spec_pos()),
                ) && old(self).spec_pos() <= final(self).spec_pos(),
                Err(e) => parse_nodes_spec(old(self)@, old(self).spec_pos(), Seq::empty()) == Err::<
                    (Seq<NodeV>, int),
                    _,
                >(e),
            },
        decreases old(self)@.len() - old(self).spec_pos(), 2int,
    {
        let ghost s = self.input@;
        let mut nodes: Vec<Node> = Vec::new();
        proof {
            assert(nodes@.map_values(|n: Node| n@) =~= Seq::<NodeV>::empty());
        }
        loop
            invariant
                self.wf(),
                self.input@ == s,
                old(self).spec_pos() <= self.spec_pos(),
                parse_nodes_spec(s, self.spec_pos(), nodes@.map_values(|n: Node| n@))
                    == parse_nodes_spec(s, old(self).spec_pos(), Seq::empty()),
            decreases s.len() - self.pos,
        {
            let ghost loop_pos = self.spec_pos();
            let ghost accv = nodes@.map_values(|n: Node| n@);
            self.consume_whitespace();
            let at_close = self.starts_with("</");
            let ghost p = self.spec_pos();
            proof {
                reveal_strlit("</");
                assert("</"@ =~= seq!['<', '/']);
                if p + 2 <= s.len() {
                    assert(s.subrange(p, p + 2) =~= seq![s[p], s[p + 1]]);
                    assert(s.subrange(p, p + 2) == "</"@ <==> (s[p] == '<' && s[p + 1] == '/'))
                        by {
                        if s.subrange(p, p + 2) == "</"@ {
                            assert(s.subrange(p, p + 2)[0] == '<');
                            assert(s.subrange(p, p + 2)[1] == '/');
                        }
                    }
                }
                assert(at_close <==> (p + 2 <= s.len() && s[p] == '<' && s[p + 1] == '/'));
            }
            if self.eof() || at_close {
                return Ok(nodes);
            }
            let node = match self.parse_node() {
                Ok(n) => n,
                Err(e) => {
                    return Err(e);
                },
            };
            proof {
                lemma_parse_node_progress(s, self.spec_pos());
            }
            nodes.push(node);
            proof {
                assert(nodes@.map_values(|n: Node| n@) =~= accv.push(nodes@.last()@));
                assert(parse_nodes_spec(s, loop_pos, accv) == parse_nodes_spec(
                    s,
                    self.spec_pos(),
                    accv.push(nodes@.last()@),
                ));
            }
        }
    }
}

/// A parsed node ends strictly after it starts: an element consumes at
/// least its `<`, and a text node starts on a character it consumes.
proof fn lemma_parse_node_progress(s: Seq<char>, pos: int)
    requires
        0 <= pos,
    ensures
        parse_node_spec(s, pos) matches Ok(v) ==> pos < v.1 <= s.len(),
{
    if 0 <= pos < s.len() {
        lemma_scan_end_bounds(s, pos, CharClass::NotChar('<'));
        if s[pos] == '<' {
            lemma_parse_element_bounds(s, pos);
        } else {
            assert(crate::text::class_holds(CharClass::NotChar('<'), s[pos]));
        }
    }
}

/// A parsed element ends strictly after it starts and within the input.
proof fn lemma_parse_element_bounds(s: Seq<char>, pos: int)
    requires
        0 <= pos,
    ensures
        parse_element_spec(s, pos) matches Ok(v) ==> pos < v.1 <= s.len(),
{
    if 0 <= pos < s.len() && s[pos] == '<' {
        let e1 = scan_end(s, pos + 1, CharClass::TagName);
        lemma_scan_end_bounds(s, pos + 1, CharClass::TagName);
        match parse_attributes_spec(s, e1, Seq::empty()) {
            Ok((attrs, p2)) => {
                if pos < p2 + 1 <= s.len() {
                    lemma_parse_nodes_bounds(s, p2 + 1);
                    match parse_nodes_spec(s, p2 + 1, Seq::empty()) {
                        Ok((children, p3)) => {
                            if !(p3 + 2 > s.len() || s[p3] != '<' || s[p3 + 1] != '/') {
                                lemma_scan_end_bounds(s, p3 + 2, CharClass::TagName);
                            }
                        },
                        Err(_) => {},
                    }
                }
            },
            Err(_) => {},
        }
    }
}

/// Parsed siblings end no earlier than they start and within the input.
proof fn lemma_parse_nodes_bounds(s: Seq<char>, pos: int)
    requires
        0 <= pos <= s.len(),
    ensures
        forall|acc: Seq<NodeV>|
            #![trigger parse_nodes_spec(s, pos, acc)]
            parse_nodes_spec(s, pos, acc) matches Ok(v) ==> pos <= v.1 <= s.len(),
    decreases s.len() - pos,
{
    lemma_scan_end_bounds(s, pos, CharClass::Whitespace);
    let p1 = ws_end(s, pos);
    assert forall|acc: Seq<NodeV>|
        parse_nodes_spec(s, pos, acc) matches Ok(v) implies pos <= (
    #[trigger] parse_nodes_spec(s, pos, acc))->Ok_0.1 <= s.len() by {
        if !(p1 >= s.len() || (p1 + 2 <= s.len() && s[p1] == '<' && s[p1 + 1] == '/')) {
            match parse_node_spec(s, p1) {
                Ok((node, p2)) => {
                    if pos < p2 <= s.len() {
                        lemma_parse_nodes_bounds(s, p2);
                        assert(parse_nodes_spec(s, pos, acc) == parse_nodes_spec(
                            s,
                            p2,
                            acc.push(node),
                        ));
                    }
                },
                Err(_) => {},
            }
        }
    }
}

} // verus!
