//! Lindenmayer's model of algae growth.
use vstd::prelude::*;

verus! {

/// The two states of an algae cell.
#[derive(Clone, Copy, Debug, PartialEq, Eq, Structural)]
pub enum AlgeaAlphabet {
    /// Reproduction state.
    A,
    /// Growth state.
    B,
}

/// What one cell becomes in the next generation.
pub open spec fn algae_image(input: AlgeaAlphabet) -> Seq<AlgeaAlphabet> {
    match input {
        AlgeaAlphabet::A => seq![AlgeaAlphabet::A, AlgeaAlphabet::B],
        AlgeaAlphabet::B => seq![AlgeaAlphabet::A],
    }
}

/// A reproducing cell stays and buds a growing one; a growing cell starts to reproduce.
pub fn algae_rule(input: AlgeaAlphabet) -> (r: Vec<AlgeaAlphabet>)
    ensures
        r@ == algae_image(input),
{
    match input {
        AlgeaAlphabet::A => vec![AlgeaAlphabet::A, AlgeaAlphabet::B],
        AlgeaAlphabet::B => vec![AlgeaAlphabet::A],
    }
}

} // verus!
