use vstd::prelude::*;

use crate::keys::KeyCode;

verus! {

/// What a key emits or switches when an action fires.
#[derive(Clone, Copy, Debug, PartialEq, Eq, Structural)]
pub enum Effect {
    NoOp,
    Key(KeyCode),
    KeySticky(KeyCode),
    ToggleLayer(usize),
    TurnOnLayer(usize),
    TurnOffLayer(usize),
}

/// What a key does when pressed.
#[derive(Clone, Copy, Debug, PartialEq, Eq, Structural)]
pub enum Action {
    Tap(Effect),
    TapHold(Effect, Effect),
    TapDance(usize, Effect, Effect),
    Sticky(Effect),
}

/// The action a key has when no layer remaps it: tapping the key itself.
pub open spec fn identity_action(code: KeyCode) -> Action {
    Action::Tap(Effect::Key(code))
}

} // verus!
