use std::time::Duration;
use vstd::prelude::*;

verus! {

/// A character swinging a single melee attack.
#[derive(Copy, Clone, Debug, PartialEq, Eq)]
pub struct Data {
    /// How long until the swing lands.
    pub buildup_duration: Duration,
    /// How long until the character can act again.
    pub recover_duration: Duration,
    /// Health change of the target when hit.
    pub base_healthchange: i32,
    /// Whether the swing has landed.
    pub exhausted: bool,
}

} // verus!
