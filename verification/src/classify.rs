//! A parity toy: a token is classified as "functional" when its byte length
//! is even and as "imperative" when it is odd. Nothing linguistic about it —
//! the rule is stated exactly as it is.

use vstd::prelude::*;

verus! {

/// The two classifications a token can receive.
#[derive(Clone, Copy, PartialEq, Eq, Structural, Debug)]
pub enum Paradigm {
    Functional,
    Imperative,
}

impl Paradigm {
    /// The printed name of the classification.
    pub fn as_text(&self) -> (r: &'static str)
        ensures
            *self == Paradigm::Functional ==> r@ == "functional"@,
            *self == Paradigm::Imperative ==> r@ == "imperative"@,
    {
        match self {
            Paradigm::Functional => "functional",
            Paradigm::Imperative => "imperative",
        }
    }
}

/// Classifies a token by the parity of its byte length.
pub fn classify_token(byte_len: usize) -> (p: Paradigm)
    ensures
        p == (if byte_len % 2 == 0 {
            Paradigm::Functional
        } else {
            Paradigm::Imperative
        }),
{
    if byte_len % 2 == 0 {
        Paradigm::Functional
    } else {
        Paradigm::Imperative
    }
}

} // verus!
