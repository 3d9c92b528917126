//! What the keys and the window do.

use crate::ops::StringOrInt;
use vstd::prelude::*;
use vstd::string::StringExecFns;

verus! {

/// The keys that mean something.
#[derive(Clone, Copy, PartialEq, Eq, Structural, Debug)]
pub enum Key {
    W,
    S,
    A,
    D,
    Space,
    ControlLeft,
    P,
    O,
    L,
    I,
    K,
    Escape,
    Other,
}

/// The directions in which the camera is being moved.
#[derive(Clone, Copy, PartialEq, Eq, Structural, Debug)]
pub struct InputState {
    pub forward: bool,
    pub back: bool,
    pub left: bool,
    pub right: bool,
    pub up: bool,
    pub down: bool,
}

/// What a key asks for besides moving the camera.
pub enum KeyAction {
    Nothing,
    /// Play this animation of this model.
    Play { model: usize, clip: String },
    /// Add the model that was loaded for this, where the camera is.
    AddModel,
    /// Move this model to where the camera is.
    MoveModel(usize),
    RemoveModel(StringOrInt),
    /// Take the cursor for the camera, or let it go.
    ToggleCursor,
}

pub enum KeyActionView {
    Nothing,
    Play { model: usize, clip: Seq<char> },
    AddModel,
    MoveModel(usize),
    RemoveNumber(usize),
    RemoveName(Seq<char>),
    ToggleCursor,
}

impl View for KeyAction {
    type V = KeyActionView;

    open spec fn view(&self) -> KeyActionView {
        match self {
            KeyAction::Nothing => KeyActionView::Nothing,
            KeyAction::Play { model, clip } => KeyActionView::Play { model: *model, clip: clip@ },
            KeyAction::AddModel => KeyActionView::AddModel,
            KeyAction::MoveModel(index) => KeyActionView::MoveModel(*index),
            KeyAction::RemoveModel(StringOrInt::Int(index)) => KeyActionView::RemoveNumber(*index),
            KeyAction::RemoveModel(StringOrInt::Str(name)) => KeyActionView::RemoveName(name@),
            KeyAction::ToggleCursor => KeyActionView::ToggleCursor,
        }
    }
}

impl InputState {
    /// No key is held.
    pub open spec fn at_rest() -> InputState {
        InputState {
            forward: false,
            back: false,
            left: false,
            right: false,
            up: false,
            down: false,
        }
    }

    /// After a key was pressed or let go.
    pub open spec fn after(self, key: Key, pressed: bool) -> InputState {
        match key {
            Key::W => InputState { forward: pressed, ..self },
            Key::S => InputState { back: pressed, ..self },
            Key::A => InputState { left: pressed, ..self },
            Key::D => InputState { right: pressed, ..self },
            Key::Space => InputState { up: pressed, ..self },
            Key::ControlLeft => InputState { down: pressed, ..self },
            _ => self,
        }
    }

    /// No key is held.
    pub fn new() -> (out: Self)
        ensures
            out == Self::at_rest(),
    {
        InputState {
            forward: false,
            back: false,
            left: false,
            right: false,
            up: false,
            down: false,
        }
    }

    /// Takes note of a key.
    pub fn set(&mut self, key: Key, pressed: bool)
        ensures
            *final(self) == old(self).after(key, pressed),
    {
        match key {
            Key::W => self.forward = pressed,
            Key::S => self.back = pressed,
            Key::A => self.left = pressed,
            Key::D => self.right = pressed,
            Key::Space => self.up = pressed,
            Key::ControlLeft => self.down = pressed,
            _ => {},
        }
    }
}

/// What a key that was pressed asks for in a scene of so many models.
pub open spec fn asks_for(key: Key, models: int) -> KeyActionView {
    match key {
        Key::P => KeyActionView::Play { model: 2, clip: "Chop_Tree RT"@ },
        Key::O => KeyActionView::AddModel,
        Key::L => KeyActionView::MoveModel((models - 1) as usize),
        Key::I => KeyActionView::RemoveNumber((models - 1) as usize),
        Key::K => KeyActionView::RemoveName("Xenon"@),
        Key::Escape => KeyActionView::ToggleCursor,
        _ => KeyActionView::Nothing,
    }
}

/// What a key asks for. Letting a key go asks for nothing.
pub fn key_action(key: Key, pressed: bool, models: usize) -> (out: KeyAction)
    requires
        pressed && (key is L || key is I) ==> models > 0,
    ensures
        out@ == if pressed {
            asks_for(key, models as int)
        } else {
            KeyActionView::Nothing
        },
{
    if !pressed {
        return KeyAction::Nothing;
    }
    match key {
        Key::P => KeyAction::Play { model: 2, clip: String::from_str("Chop_Tree RT") },
        Key::O => KeyAction::AddModel,
        Key::L => KeyAction::MoveModel(models - 1),
        Key::I => KeyAction::RemoveModel(StringOrInt::Int(models - 1)),
        Key::K => KeyAction::RemoveModel(StringOrInt::Str(String::from_str("Xenon"))),
        Key::Escape => KeyAction::ToggleCursor,
        _ => KeyAction::Nothing,
    }
}

/// Whether the window is minimized, and whether its images must be made anew.
#[derive(Clone, Copy, PartialEq, Eq, Structural, Debug)]
pub struct WindowState {
    pub minimized: bool,
    pub resized: bool,
}

/// The window after it has got a size: without area it counts as minimized.
pub fn resize_window(window: WindowState, width: u32, height: u32) -> (out: WindowState)
    ensures
        out == if width == 0 || height == 0 {
            WindowState { minimized: true, ..window }
        } else {
            WindowState { minimized: false, resized: true }
        },
{
    if width == 0 || height == 0 {
        WindowState { minimized: true, resized: window.resized }
    } else {
        WindowState { minimized: false, resized: true }
    }
}

/// Keys for different directions do not get in each other's way: their order does not matter.
pub proof fn law_directions_are_independent(
    state: InputState,
    key1: Key,
    pressed1: bool,
    key2: Key,
    pressed2: bool,
)
    requires
        key1 != key2,
    ensures
        state.after(key1, pressed1).after(key2, pressed2) == state.after(key2, pressed2).after(
            key1,
            pressed1,
        ),
{
}

/// Each of the six keys for a direction sets that direction, to whether the key is held, and no other;
/// all other keys set none. At first no direction is set.
pub proof fn law_keys_set_their_direction(state: InputState, key: Key, pressed: bool)
    ensures
        ({
            let after = state.after(key, pressed);
            &&& after.forward == if key is W {
                pressed
            } else {
                state.forward
            }
            &&& after.back == if key is S {
                pressed
            } else {
                state.back
            }
            &&& after.left == if key is A {
                pressed
            } else {
                state.left
            }
            &&& after.right == if key is D {
                pressed
            } else {
                state.right
            }
            &&& after.up == if key is Space {
                pressed
            } else {
                state.up
            }
            &&& after.down == if key is ControlLeft {
                pressed
            } else {
                state.down
            }
        }),
        ({
            let rest = InputState::at_rest();
            !rest.forward && !rest.back && !rest.left && !rest.right && !rest.up && !rest.down
        }),
{
}

/// What the keys ask for. The last model is the one that is moved or taken out.
pub proof fn law_keys_ask_for_their_actions(key: Key, models: int)
    ensures
        asks_for(key, models) is Play <==> key is P,
        asks_for(key, models) matches KeyActionView::Play { model, clip } ==> model == 2 && clip
            == "Chop_Tree RT"@,
        asks_for(key, models) is AddModel <==> key is O,
        asks_for(key, models) is MoveModel <==> key is L,
        asks_for(key, models) matches KeyActionView::MoveModel(model) ==> (0 < models <= usize::MAX
            ==> model + 1 == models),
        asks_for(key, models) is RemoveNumber <==> key is I,
        asks_for(key, models) matches KeyActionView::RemoveNumber(model) ==> (0 < models
            <= usize::MAX ==> model + 1 == models),
        asks_for(key, models) is RemoveName <==> key is K,
        asks_for(key, models) matches KeyActionView::RemoveName(name) ==> name == "Xenon"@,
        asks_for(key, models) is ToggleCursor <==> key is Escape,
{
}

} // verus!
