//! The simple linear-regression strategy marker. Fitting a line is
//! floating-point work and lives with the program around this library; the
//! regressor itself carries no state.

use vstd::prelude::*;

verus! {

/// The least-squares simple linear-regression strategy.
#[derive(Debug)]
pub struct LinearRegressionRegressor {}

impl LinearRegressionRegressor {
    /// A linear-regression fitting strategy.
    pub fn new() -> (r: LinearRegressionRegressor)
        ensures
            r == (LinearRegressionRegressor {  }),
    {
        LinearRegressionRegressor {  }
    }
}

} // verus!
