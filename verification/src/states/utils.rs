use vstd::prelude::*;

verus! {

/// The part of an ability a character is in.
#[derive(Copy, Clone, Debug, PartialEq, Eq, Hash, Structural)]
pub enum StageSection {
    Buildup,
    Swing,
    Recover,
    Charge,
    Cast,
    Shoot,
    Movement,
}

} // verus!
