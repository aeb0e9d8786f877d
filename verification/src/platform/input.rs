//! The state of the keyboard and of the mouse buttons between two frames.

use super::event::{KeyCode, KeyboardEvent, MouseButton, KEYS, MOUSE_BUTTONS};
use vstd::prelude::*;

verus! {

/// The state of one key or button.
#[derive(Clone, Copy, Debug)]
pub struct State {
    /// It went down since the last frame.
    pub pressed: bool,
    /// It is down.
    pub held: bool,
    /// It came up since the last frame.
    pub released: bool,
}

impl State {
    /// The state of a key that nothing has happened to.
    pub open spec fn idle() -> State {
        State { pressed: false, held: false, released: false }
    }

    /// The state after the key went down: it counts as pressed unless it was
    /// held already.
    pub open spec fn press(self) -> State {
        State { pressed: !self.held, held: true, released: self.released }
    }

    /// The state after a button went down: it counts as pressed each time.
    pub open spec fn click(self) -> State {
        State { pressed: true, held: true, released: self.released }
    }

    /// The state after the key came up.
    pub open spec fn release(self) -> State {
        State { pressed: self.pressed, held: false, released: true }
    }

    /// The state at the start of the next frame: what is held stays held.
    pub open spec fn next_frame(self) -> State {
        State { pressed: false, held: self.held, released: false }
    }
}

/// The state of every key.
pub struct Keyboard {
    key_states: Vec<State>,
}

impl Keyboard {
    /// The state of each key, at the key's place.
    pub closed spec fn view(&self) -> Seq<State> {
        self.key_states@
    }

    /// There is a state for every key.
    pub open spec fn wf(&self) -> bool {
        self@.len() == KEYS
    }

    /// The state of `keycode`.
    pub open spec fn state(&self, keycode: KeyCode) -> State {
        self@[keycode.ordinal() as int]
    }

    /// A keyboard to which nothing has happened.
    pub fn new() -> (r: Self)
        ensures
            r.wf(),
            forall|i: int| 0 <= i < KEYS ==> r@[i] == State::idle(),
    {
        let mut key_states: Vec<State> = Vec::new();
        while key_states.len() < KEYS
            invariant
                key_states@.len() <= KEYS,
                forall|i: int| 0 <= i < key_states@.len() ==> key_states@[i] == State::idle(),
            decreases KEYS - key_states@.len(),
        {
            key_states.push(State { pressed: false, held: false, released: false });
        }
        Keyboard { key_states }
    }

    /// Whether the key went down since the last frame.
    pub fn is_key_pressed(&self, keycode: KeyCode) -> (r: bool)
        requires
            self.wf(),
        ensures
            r == self.state(keycode).pressed,
    {
        self.key_states[keycode.index()].pressed
    }

    /// Whether the key is down.
    pub fn is_key_held(&self, keycode: KeyCode) -> (r: bool)
        requires
            self.wf(),
        ensures
            r == self.state(keycode).held,
    {
        self.key_states[keycode.index()].held
    }

    /// Whether the key came up since the last frame.
    pub fn is_key_released(&self, keycode: KeyCode) -> (r: bool)
        requires
            self.wf(),
        ensures
            r == self.state(keycode).released,
    {
        self.key_states[keycode.index()].released
    }

    /// Records that a key went down or came up.  No other key changes.
    pub fn handle_keyboard_event(&mut self, event: &KeyboardEvent)
        requires
            old(self).wf(),
        ensures
            final(self).wf(),
            final(self)@ == (match *event {
                KeyboardEvent::KeyPressed(keycode) => old(self)@.update(
                    keycode.ordinal() as int,
                    old(self).state(keycode).press(),
                ),
                KeyboardEvent::KeyReleased(keycode) => old(self)@.update(
                    keycode.ordinal() as int,
                    old(self).state(keycode).release(),
                ),
            }),
    {
        match event {
            KeyboardEvent::KeyPressed(keycode) => {
                let i = keycode.index();
                let state = self.key_states[i];
                self.key_states[i] = State {
                    pressed: !state.held,
                    held: true,
                    released: state.released,
                };
            },
            KeyboardEvent::KeyReleased(keycode) => {
                let i = keycode.index();
                let state = self.key_states[i];
                self.key_states[i] = State { pressed: state.pressed, held: false, released: true };
            },
        }
    }

    /// Starts the next frame: nothing counts as pressed or released any more.
    pub fn clear(&mut self)
        requires
            old(self).wf(),
        ensures
            final(self).wf(),
            forall|i: int| 0 <= i < KEYS ==> #[trigger] final(self)@[i] == old(self)@[i].next_frame(),
    {
        let mut i: usize = 0;
        while i < KEYS
            invariant
                i <= KEYS,
                self.wf(),
                forall|j: int| 0 <= j < i ==> #[trigger] self@[j] == old(self)@[j].next_frame(),
                forall|j: int| i <= j < KEYS ==> self@[j] == old(self)@[j],
            decreases KEYS - i,
        {
            let state = self.key_states[i];
            self.key_states[i] = State { pressed: false, held: state.held, released: false };
            i += 1;
        }
    }
}

/// The state of every button of the mouse.
pub struct MouseButtons {
    button_states: Vec<State>,
}

impl MouseButtons {
    /// The state of each button, at the button's place.
    pub closed spec fn view(&self) -> Seq<State> {
        self.button_states@
    }

    /// There is a state for every button.
    pub open spec fn wf(&self) -> bool {
        self@.len() == MOUSE_BUTTONS
    }

    /// The state of `button`.
    pub open spec fn state(&self, button: MouseButton) -> State {
        self@[button.ordinal() as int]
    }

    /// Buttons to which nothing has happened.
    pub fn new() -> (r: Self)
        ensures
            r.wf(),
            forall|i: int| 0 <= i < MOUSE_BUTTONS ==> r@[i] == State::idle(),
    {
        let mut button_states: Vec<State> = Vec::new();
        while button_states.len() < MOUSE_BUTTONS
            invariant
                button_states@.len() <= MOUSE_BUTTONS,
                forall|i: int|
                    0 <= i < button_states@.len() ==> button_states@[i] == State::idle(),
            decreases MOUSE_BUTTONS - button_states@.len(),
        {
            button_states.push(State { pressed: false, held: false, released: false });
        }
        MouseButtons { button_states }
    }

    /// Whether the button went down since the last frame.
    pub fn is_button_pressed(&self, button: MouseButton) -> (r: bool)
        requires
            self.wf(),
        ensures
            r == self.state(button).pressed,
    {
        self.button_states[button.index()].pressed
    }

    /// Whether the button is down.
    pub fn is_button_held(&self, button: MouseButton) -> (r: bool)
        requires
            self.wf(),
        ensures
            r == self.state(button).held,
    {
        self.button_states[button.index()].held
    }

    /// Whether the button came up since the last frame.
    pub fn is_button_released(&self, button: MouseButton) -> (r: bool)
        requires
            self.wf(),
        ensures
            r == self.state(button).released,
    {
        self.button_states[button.index()].released
    }

    /// Records that a button went down.  No other button changes.
    pub fn press(&mut self, button: MouseButton)
        requires
            old(self).wf(),
        ensures
            final(self).wf(),
            final(self)@ == old(self)@.update(
                button.ordinal() as int,
                old(self).state(button).click(),
            ),
    {
        let i = button.index();
        let state = self.button_states[i];
        self.button_states[i] = State { pressed: true, held: true, released: state.released };
    }

    /// Records that a button came up.  No other button changes.
    pub fn release(&mut self, button: MouseButton)
        requires
            old(self).wf(),
        ensures
            final(self).wf(),
            final(self)@ == old(self)@.update(
                button.ordinal() as int,
                old(self).state(button).release(),
            ),
    {
        let i = button.index();
        let state = self.button_states[i];
        self.button_states[i] = State { pressed: state.pressed, held: false, released: true };
    }

    /// Starts the next frame: nothing counts as pressed or released any more.
    pub fn clear(&mut self)
        requires
            old(self).wf(),
        ensures
            final(self).wf(),
            forall|i: int|
                0 <= i < MOUSE_BUTTONS ==> #[trigger] final(self)@[i] == old(self)@[i].next_frame(),
    {
        let mut i: usize = 0;
        while i < MOUSE_BUTTONS
            invariant
                i <= MOUSE_BUTTONS,
                self.wf(),
                forall|j: int| 0 <= j < i ==> #[trigger] self@[j] == old(self)@[j].next_frame(),
                forall|j: int| i <= j < MOUSE_BUTTONS ==> self@[j] == old(self)@[j],
            decreases MOUSE_BUTTONS - i,
        {
            let state = self.button_states[i];
            self.button_states[i] = State { pressed: false, held: state.held, released: false };
            i += 1;
        }
    }
}

} // verus!
