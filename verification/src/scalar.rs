//! The opaque scalar kinds of the tree format: 64-bit identifiers and real
//! numbers carried by their decimal rendering.

use vstd::prelude::*;

verus! {

/// A 64-bit opaque identifier, distinct in kind from [`crate::Integer`]:
/// a value written as a UID token never decodes into an integer position,
/// nor the other way round.
#[derive(Clone, Copy, Debug, PartialEq, Eq, Hash, Structural)]
pub struct Uid {
    v: u64,
}

impl Uid {
    /// The identifier as a plain number.
    pub closed spec fn value(&self) -> u64 {
        self.v
    }

    /// Build an identifier from a plain number.
    pub fn new(v: u64) -> (r: Uid)
        ensures
            r.value() == v,
    {
        Uid { v }
    }

    /// The plain number this identifier wraps.
    pub fn get(&self) -> (r: u64)
        ensures
            r == self.value(),
    {
        self.v
    }
}

/// A real-number scalar, carried as its decimal rendering.
///
/// The codec never computes with reals; it only moves them between positions
/// of the tree, so the library holds the digits a caller rendered (for
/// instance with the standard formatting of a 64-bit machine float) and
/// compares reals by that text.
#[derive(Clone, Debug, PartialEq, Eq, Hash)]
pub struct Real {
    text: String,
}

impl View for Real {
    type V = Seq<char>;

    closed spec fn view(&self) -> Seq<char> {
        self.text@
    }
}

impl DeepView for Real {
    type V = Seq<char>;

    open spec fn deep_view(&self) -> Seq<char> {
        self.view()
    }
}

impl Real {
    /// Build a real from its decimal rendering.
    pub fn from_text(text: String) -> (r: Real)
        ensures
            r@ == text@,
    {
        Real { text }
    }

    /// The decimal rendering of this real.
    pub fn as_text(&self) -> (r: &str)
        ensures
            r@ == self@,
    {
        self.text.as_str()
    }

    /// A copy of this real.
    pub fn duplicate(&self) -> (r: Real)
        ensures
            r@ == self@,
    {
        Real { text: self.text.clone() }
    }
}

} // verus!
