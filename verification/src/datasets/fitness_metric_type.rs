use vstd::prelude::*;

verus! {

/// The task a run is scored on; it selects how predictions are reduced to a cost.
#[derive(Clone, Copy, PartialEq, Eq, Structural, Debug)]
pub enum FitnessFuncType {
    Regression,
    ClassificationBinary,
    ClassificationMultiClass,
}

} // verus!
