//! Configuration for principal-component analysis: how many of the leading
//! components a fitted projection keeps. The eigendecomposition itself needs
//! a linear-algebra backend and floating-point arithmetic, so it lives with
//! the program around this library; this type carries its configuration.

use vstd::prelude::*;

verus! {

/// Settings for a principal-component projection.
#[derive(Debug)]
pub struct PrincipalComponentAnalysis {
    /// How many of the leading components the projection keeps.
    pub number_of_features: usize,
}

impl PrincipalComponentAnalysis {
    /// A configuration keeping the given number of components.
    pub fn new(number_of_features: usize) -> (p: PrincipalComponentAnalysis)
        ensures
            p.number_of_features == number_of_features,
    {
        PrincipalComponentAnalysis { number_of_features }
    }
}

} // verus!
