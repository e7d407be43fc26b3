//! Character-encoding state of the document parser: which encoding the input
//! byte stream was decoded from, and how certain the parser is of it.

use vstd::prelude::*;

verus! {

/// How certain the parser is of the character encoding it decodes with: a
/// sniffed encoding is tentative, a declared one certain, and when the
/// parser starts from characters rather than bytes the question is
/// irrelevant.
#[derive(PartialEq, Eq, Structural, Clone, Copy, Debug)]
pub enum Confidence {
    Certain,
    Tentative,
    Irrelevant,
}

/// The encodings the parser can decode an input byte stream from.
#[derive(PartialEq, Eq, Structural, Clone, Copy, Debug)]
pub enum Encoding {
    Utf8,
    Utf16,
}

} // verus!
