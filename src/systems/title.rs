use vstd::prelude::*;

use crate::state::{GameMode, TitleInputs};

verus! {

/// On the title screen, confirming asks for the playing mode.
pub fn handle_inputs(title_inputs: &TitleInputs, transition_to: &mut Option<GameMode>)
    ensures
        *final(transition_to) == if title_inputs.confirm {
            Some(GameMode::Playing)
        } else {
            *old(transition_to)
        },
{
    if title_inputs.confirm {
        *transition_to = Some(GameMode::Playing);
    }
}

} // verus!
