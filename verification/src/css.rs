//! The stylesheet data model: rules, selectors, declarations and values.

use vstd::prelude::*;

verus! {

/// An RGBA colour with one byte per channel.
#[derive(PartialEq, Eq, Structural, Clone, Copy, Debug)]
pub struct Color {
    pub r: u8,
    pub g: u8,
    pub b: u8,
    pub a: u8,
}

impl Color {
    pub fn new(r: u8, g: u8, b: u8, a: u8) -> (c: Self)
        ensures
            c == (Color { r, g, b, a }),
    {
        Color { r, g, b, a }
    }
}

/// The units a length value can carry.
#[derive(PartialEq, Eq, Structural, Clone, Copy, Debug)]
pub enum Unit {
    Px,
}

/// A declaration's value: a keyword, a length or a colour. Lengths are whole
/// pixel counts.
#[derive(PartialEq, Eq, Clone, Debug)]
pub enum Value {
    Keyword(String),
    Length(i64, Unit),
    ColorValue(Color),
}

/// The mathematical model of a `Value`: keywords become character sequences.
pub enum ValueV {
    Keyword(Seq<char>),
    Length(int, Unit),
    ColorValue(Color),
}

impl View for Value {
    type V = ValueV;

    open spec fn view(&self) -> ValueV {
        match self {
            Value::Keyword(s) => ValueV::Keyword(s@),
            Value::Length(n, u) => ValueV::Length(*n as int, *u),
            Value::ColorValue(c) => ValueV::ColorValue(*c),
        }
    }
}

/// The pixel size of a value: the count of an explicit pixel length, zero for
/// anything else.
pub open spec fn to_px_spec(v: ValueV) -> int {
    match v {
        ValueV::Length(n, Unit::Px) => n,
        _ => 0,
    }
}

impl Value {
    /// Return the size of a length in pixels, or zero for non-lengths.
    pub fn to_px(&self) -> (r: i64)
        ensures
            r as int == to_px_spec(self@),
    {
        match self {
            Value::Length(n, Unit::Px) => *n,
            _ => 0,
        }
    }

    /// Copy this value.
    pub fn dup(&self) -> (r: Value)
        ensures
            r@ == self@,
    {
        match self {
            Value::Keyword(s) => Value::Keyword(s.clone()),
            Value::Length(n, u) => Value::Length(*n, *u),
            Value::ColorValue(c) => Value::ColorValue(*c),
        }
    }
}

/// A simple selector: an optional tag name, an optional id and a list of
/// class names; absent components match everything.
#[derive(PartialEq, Eq, Clone, Debug)]
pub struct SimpleSelector {
    pub tag_name: Option<String>,
    pub id: Option<String>,
    pub class: Vec<String>,
}

/// The mathematical model of a `SimpleSelector`.
pub struct SimpleSelectorV {
    pub tag_name: Option<Seq<char>>,
    pub id: Option<Seq<char>>,
    pub class: Seq<Seq<char>>,
}

impl View for SimpleSelector {
    type V = SimpleSelectorV;

    open spec fn view(&self) -> SimpleSelectorV {
        SimpleSelectorV {
            tag_name: match self.tag_name {
                Some(t) => Some(t@),
                None => None,
            },
            id: match self.id {
                Some(i) => Some(i@),
                None => None,
            },
            class: self.class@.map_values(|c: String| c@),
        }
    }
}

/// A selector; simple selectors are the only kind so far.
#[derive(PartialEq, Eq, Clone, Debug)]
pub enum Selector {
    Simple(SimpleSelector),
}

/// The mathematical model of a `Selector`.
pub enum SelectorV {
    Simple(SimpleSelectorV),
}

impl View for Selector {
    type V = SelectorV;

    open spec fn view(&self) -> SelectorV {
        match self {
            Selector::Simple(s) => SelectorV::Simple(s@),
        }
    }
}

/// One `property: value` declaration.
#[derive(PartialEq, Eq, Clone, Debug)]
pub struct Declaration {
    pub name: String,
    pub value: Value,
}

/// The mathematical model of a `Declaration`.
pub struct DeclarationV {
    pub name: Seq<char>,
    pub value: ValueV,
}

impl View for Declaration {
    type V = DeclarationV;

    open spec fn view(&self) -> DeclarationV {
        DeclarationV { name: self.name@, value: self.value@ }
    }
}

/// A rule: a selector list and the declarations it applies.
#[derive(PartialEq, Eq, Clone, Debug)]
pub struct Rule {
    pub selectors: Vec<Selector>,
    pub declarations: Vec<Declaration>,
}

/// The mathematical model of a `Rule`.
pub struct RuleV {
    pub selectors: Seq<SelectorV>,
    pub declarations: Seq<DeclarationV>,
}

impl View for Rule {
    type V = RuleV;

    open spec fn view(&self) -> RuleV {
        RuleV {
            selectors: self.selectors@.map_values(|s: Selector| s@),
            declarations: self.declarations@.map_values(|d: Declaration| d@),
        }
    }
}

/// An ordered sequence of rules.
#[derive(PartialEq, Eq, Clone, Debug)]
pub struct Stylesheet {
    pub rules: Vec<Rule>,
}

impl View for Stylesheet {
    type V = Seq<RuleV>;

    open spec fn view(&self) -> Seq<RuleV> {
        self.rules@.map_values(|r: Rule| r@)
    }
}

/// A selector's specificity: id count, class count, tag count; compared
/// lexicographically, higher wins.
pub type Specificity = (usize, usize, usize);

/// The specificity of a selector, as mathematical integers.
pub open spec fn spec_specificity(s: SelectorV) -> (int, int, int) {
    match s {
        SelectorV::Simple(simple) => (
            if simple.id is Some {
                1int
            } else {
                0int
            },
            simple.class.len() as int,
            if simple.tag_name is Some {
                1int
            } else {
                0int
            },
        ),
    }
}

impl Selector {
    /// The specificity of this selector.
    /// <http://www.w3.org/TR/selectors/#specificity>
    pub fn specificity(&self) -> (s: Specificity)
        ensures
            (s.0 as int, s.1 as int, s.2 as int) == spec_specificity(self@),
    {
        let Selector::Simple(simple) = self;
        let a: usize = if simple.id.is_some() {
            1
        } else {
            0
        };
        let b: usize = simple.class.len();
        let c: usize = if simple.tag_name.is_some() {
            1
        } else {
            0
        };
        (a, b, c)
    }
}

} // verus!
