use vstd::prelude::*;

verus! {

/// The ways in which building a lattice or valuing an option can fail.
/// Every failure is terminal and is reported to the caller at once; no
/// partial result is ever handed back beside one of these.
#[derive(Debug)]
pub enum PricingError {
    /// A caller-supplied parameter or grid violates a precondition.
    InvalidInput(String),
    /// A derived quantity failed a numerical sanity check.
    NumericalError(String),
    /// The grid's topology leaves the root cell without a value.
    TreeStructureError(String),
}

impl PricingError {
    /// The diagnostic text carried by the error.
    pub fn message(&self) -> (r: &str)
        ensures
            self matches PricingError::InvalidInput(m) ==> r@ == m@,
            self matches PricingError::NumericalError(m) ==> r@ == m@,
            self matches PricingError::TreeStructureError(m) ==> r@ == m@,
    {
        match self {
            PricingError::InvalidInput(m) => m.as_str(),
            PricingError::NumericalError(m) => m.as_str(),
            PricingError::TreeStructureError(m) => m.as_str(),
        }
    }
}

} // verus!
