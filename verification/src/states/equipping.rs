use std::time::Duration;
use vstd::prelude::*;

verus! {

/// A character drawing its weapon.
#[derive(Copy, Clone, Debug, PartialEq, Eq)]
pub struct Data {
    /// Time left before the weapon is drawn.
    pub time_left: Duration,
}

} // verus!
