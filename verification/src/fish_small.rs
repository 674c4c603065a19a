use rand::seq::SliceRandom;
use vstd::prelude::*;

verus! {

/// Torso shapes of a small fish.
#[derive(Copy, Clone, Debug, PartialEq, Eq, Hash, Structural)]
pub enum Torso {
    Default,
}

/// Tail shapes of a small fish.
#[derive(Copy, Clone, Debug, PartialEq, Eq, Hash, Structural)]
pub enum Tail {
    Default,
}

/// The body of a small fish.
#[derive(Copy, Clone, Debug, PartialEq, Eq, Hash, Structural)]
pub struct Body {
    pub torso: Torso,
    pub tail: Tail,
}

/// Every torso a small fish can have.
pub open spec fn all_torsos_spec() -> Seq<Torso> {
    seq![Torso::Default]
}

/// Every tail a small fish can have.
pub open spec fn all_tails_spec() -> Seq<Tail> {
    seq![Tail::Default]
}

/// Every torso a small fish can have.
pub fn all_torsos() -> (torsos: [Torso; 1])
    ensures
        torsos@ == all_torsos_spec(),
{
    [Torso::Default]
}

/// Every tail a small fish can have.
pub fn all_tails() -> (tails: [Tail; 1])
    ensures
        tails@ == all_tails_spec(),
{
    [Tail::Default]
}

/// Picks one element of `options` with the thread-local generator, through
/// `rand::seq::SliceRandom::choose` on a slice: `None` exactly when the slice
/// is empty, otherwise one of its elements. Which element comes back is left
/// to chance and is not stated.
#[verifier::external_body]
fn choose_one<T: Copy>(options: &[T]) -> (chosen: Option<T>)
    ensures
        chosen is Some <==> options@.len() > 0,
        chosen matches Some(v) ==> options@.contains(v),
{
    options.choose(&mut rand::thread_rng()).copied()
}

impl Body {
    /// A body with a torso and a tail picked at random among all the shapes.
    pub fn random() -> (body: Self)
        ensures
            all_torsos_spec().contains(body.torso),
            all_tails_spec().contains(body.tail),
    {
        let torsos = all_torsos();
        let tails = all_tails();
        let torso = choose_one(torsos.as_slice()).unwrap();
        let tail = choose_one(tails.as_slice()).unwrap();
        Body { torso, tail }
    }
}

} // verus!
