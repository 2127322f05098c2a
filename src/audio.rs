use vstd::prelude::*;

verus! {

/// A sound that the gameplay asks the audio layer to play.
#[derive(Clone, Copy, PartialEq, Eq, Structural, Debug)]
pub enum AudioCommand {
    AsteroidExplosion,
    Shoot,
    PlayerExplosion,
    PlayerHit,
}

} // verus!
