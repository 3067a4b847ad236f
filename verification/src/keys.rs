use vstd::prelude::*;

verus! {

/// One input key event, as the simulation core understands it.
///
/// Only the four arrow keys steer the snake; `State::change_direction`
/// ignores every other key, so non-directional input is absorbed silently.
#[derive(Copy, Clone, Debug, PartialEq, Eq, Structural)]
pub enum KeyValue {
    UpArrow,
    RightArrow,
    DownArrow,
    LeftArrow,
    Space,
    Enter,
    Other,
}

} // verus!
