//! Two equivalent ways of building the same small vector: with every type
//! spelled out, and with the element types left to inference.

use vstd::prelude::*;

verus! {

/// Builds the vector `[10, 20]` with explicit type annotations everywhere.
pub fn build_vector_typed() -> (v: Vec<i16>)
    ensures
        v@ == seq![10i16, 20i16],
{
    let mut v: Vec<i16> = Vec::<i16>::new();
    v.push(10i16);
    v.push(20i16);
    proof {
        assert(v@ =~= seq![10i16, 20i16]);
    }
    v
}

/// Builds the same vector `[10, 20]`, leaving the element type to inference.
pub fn build_vector_not_typed() -> (v: Vec<i16>)
    ensures
        v@ == seq![10i16, 20i16],
{
    let mut v = Vec::new();
    v.push(10);
    v.push(20);
    proof {
        assert(v@ =~= seq![10i16, 20i16]);
    }
    v
}

} // verus!
