//! Keyboard and mouse state, fed by input events once per frame.
//!
//! Each device keeps the state of every key or button now and as it was at
//! the end of the previous frame; "pressed" and "released" are the changes
//! between the two.
use vstd::prelude::*;

verus! {

/// Number of distinct key codes.
pub const KEY_COUNT: usize = 101;

/// Number of distinct mouse buttons.
pub const BUTTON_COUNT: usize = 5;

/// An input event, as delivered by the window system. Keys and buttons are
/// given by their code.
#[derive(Clone, Copy, Debug, PartialEq, Eq, Structural)]
pub enum InputEvent {
    KeyPressed(usize),
    KeyReleased(usize),
    MouseButtonPressed(usize),
    MouseButtonReleased(usize),
    MouseMoved { x: i32, y: i32 },
    /// Any event that does not concern the keyboard or the mouse.
    Other,
}

/// `state` with the entry for `code` set to `down`; a code outside the table
/// leaves it unchanged.
pub open spec fn switched(state: Seq<bool>, code: usize, down: bool) -> Seq<bool> {
    if code < state.len() {
        state.update(code as int, down)
    } else {
        state
    }
}

pub struct Keyboard {
    pub keys: [bool; 101],
    keys_ctrl: [bool; 101],
}

impl Keyboard {
    /// Which keys are down now.
    pub closed spec fn keys_now(&self) -> Seq<bool> {
        self.keys@
    }

    /// Which keys were down at the end of the previous frame.
    pub closed spec fn keys_before(&self) -> Seq<bool> {
        self.keys_ctrl@
    }

    /// The key table after `event`.
    pub open spec fn keys_after(&self, event: InputEvent) -> Seq<bool> {
        match event {
            InputEvent::KeyPressed(code) => switched(self.keys_now(), code, true),
            InputEvent::KeyReleased(code) => switched(self.keys_now(), code, false),
            _ => self.keys_now(),
        }
    }

    pub fn new() -> (k: Keyboard)
        ensures
            forall|i: int| 0 <= i < KEY_COUNT ==> !k.keys_now()[i] && !k.keys_before()[i],
            k.keys_now().len() == KEY_COUNT,
            k.keys_before().len() == KEY_COUNT,
    {
        Keyboard { keys: [false; 101], keys_ctrl: [false; 101] }
    }

    /// Records a key event; other events leave the keyboard as it is.
    pub fn propagate(&mut self, event: &InputEvent)
        ensures
            final(self).keys_now() == old(self).keys_after(*event),
            final(self).keys_before() == old(self).keys_before(),
    {
        match event {
            InputEvent::KeyPressed(code) => {
                if *code < KEY_COUNT {
                    self.keys[*code] = true;
                }
            },
            InputEvent::KeyReleased(code) => {
                if *code < KEY_COUNT {
                    self.keys[*code] = false;
                }
            },
            _ => {},
        }
    }

    pub fn key_down(&self, key: usize) -> (b: bool)
        requires
            key < KEY_COUNT,
        ensures
            b == self.keys_now()[key as int],
    {
        self.keys[key]
    }

    pub fn key_up(&self, key: usize) -> (b: bool)
        requires
            key < KEY_COUNT,
        ensures
            b == !self.keys_now()[key as int],
    {
        !self.keys[key]
    }

    /// The key went down during this frame.
    pub fn key_pressed(&self, key: usize) -> (b: bool)
        requires
            key < KEY_COUNT,
        ensures
            b == (self.keys_now()[key as int] && !self.keys_before()[key as int]),
    {
        self.keys[key] && !self.keys_ctrl[key]
    }

    /// The key went up during this frame.
    pub fn key_released(&self, key: usize) -> (b: bool)
        requires
            key < KEY_COUNT,
        ensures
            b == (!self.keys_now()[key as int] && self.keys_before()[key as int]),
    {
        !self.keys[key] && self.keys_ctrl[key]
    }
}

pub struct Mouse {
    x: i32,
    y: i32,
    buttons: [bool; 5],
    buttons_ctrl: [bool; 5],
}

impl Mouse {
    /// The last reported cursor position.
    pub closed spec fn spec_position(&self) -> (i32, i32) {
        (self.x, self.y)
    }

    /// Which buttons are down now.
    pub closed spec fn buttons_now(&self) -> Seq<bool> {
        self.buttons@
    }

    /// Which buttons were down at the end of the previous frame.
    pub closed spec fn buttons_before(&self) -> Seq<bool> {
        self.buttons_ctrl@
    }

    pub open spec fn buttons_after(&self, event: InputEvent) -> Seq<bool> {
        match event {
            InputEvent::MouseButtonPressed(code) => switched(self.buttons_now(), code, true),
            InputEvent::MouseButtonReleased(code) => switched(self.buttons_now(), code, false),
            _ => self.buttons_now(),
        }
    }

    pub open spec fn position_after(&self, event: InputEvent) -> (i32, i32) {
        match event {
            InputEvent::MouseMoved { x, y } => (x, y),
            _ => self.spec_position(),
        }
    }

    pub fn new() -> (m: Mouse)
        ensures
            m.spec_position() == (0i32, 0i32),
            m.buttons_now().len() == BUTTON_COUNT,
            m.buttons_before().len() == BUTTON_COUNT,
            forall|i: int| 0 <= i < BUTTON_COUNT ==> !m.buttons_now()[i] && !m.buttons_before()[i],
    {
        Mouse { x: 0, y: 0, buttons: [false; 5], buttons_ctrl: [false; 5] }
    }

    /// Records a button or movement event; other events leave the mouse as it is.
    pub fn propagate(&mut self, event: &InputEvent)
        ensures
            final(self).buttons_now() == old(self).buttons_after(*event),
            final(self).spec_position() == old(self).position_after(*event),
            final(self).buttons_before() == old(self).buttons_before(),
    {
        match event {
            InputEvent::MouseButtonPressed(code) => {
                if *code < BUTTON_COUNT {
                    self.buttons[*code] = true;
                }
            },
            InputEvent::MouseButtonReleased(code) => {
                if *code < BUTTON_COUNT {
                    self.buttons[*code] = false;
                }
            },
            InputEvent::MouseMoved { x, y } => {
                self.x = *x;
                self.y = *y;
            },
            _ => {},
        }
    }

    pub fn x(&self) -> (r: i32)
        ensures
            r == self.spec_position().0,
    {
        self.x
    }

    pub fn y(&self) -> (r: i32)
        ensures
            r == self.spec_position().1,
    {
        self.y
    }

    pub fn position(&self) -> (r: (i32, i32))
        ensures
            r == self.spec_position(),
    {
        (self.x, self.y)
    }

    pub fn button_down(&self, button: usize) -> (b: bool)
        requires
            button < BUTTON_COUNT,
        ensures
            b == self.buttons_now()[button as int],
    {
        self.buttons[button]
    }

    pub fn button_up(&self, button: usize) -> (b: bool)
        requires
            button < BUTTON_COUNT,
        ensures
            b == !self.buttons_now()[button as int],
    {
        !self.buttons[button]
    }

    /// The button went down during this frame.
    pub fn button_pressed(&self, button: usize) -> (b: bool)
        requires
            button < BUTTON_COUNT,
        ensures
            b == (self.buttons_now()[button as int] && !self.buttons_before()[button as int]),
    {
        self.buttons[button] && !self.buttons_ctrl[button]
    }

    /// The button went up during this frame.
    pub fn button_released(&self, button: usize) -> (b: bool)
        requires
            button < BUTTON_COUNT,
        ensures
            b == (!self.buttons_now()[button as int] && self.buttons_before()[button as int]),
    {
        !self.buttons[button] && self.buttons_ctrl[button]
    }
}

/// The keyboard and the mouse together.
pub struct InputManager {
    pub keyboard: Keyboard,
    pub mouse: Mouse,
}

impl InputManager {
    pub fn new() -> (m: InputManager)
        ensures
            forall|i: int|
                0 <= i < KEY_COUNT ==> !m.keyboard.keys_now()[i] && !m.keyboard.keys_before()[i],
            m.keyboard.keys_now().len() == KEY_COUNT,
            m.keyboard.keys_before().len() == KEY_COUNT,
            m.mouse.spec_position() == (0i32, 0i32),
            m.mouse.buttons_now().len() == BUTTON_COUNT,
            m.mouse.buttons_before().len() == BUTTON_COUNT,
            forall|i: int|
                0 <= i < BUTTON_COUNT ==> !m.mouse.buttons_now()[i] && !m.mouse.buttons_before()[i],
    {
        InputManager { keyboard: Keyboard::new(), mouse: Mouse::new() }
    }

    /// Hands an event to both devices.
    pub fn propagate(&mut self, event: &InputEvent)
        ensures
            final(self).keyboard.keys_now() == old(self).keyboard.keys_after(*event),
            final(self).keyboard.keys_before() == old(self).keyboard.keys_before(),
            final(self).mouse.buttons_now() == old(self).mouse.buttons_after(*event),
            final(self).mouse.spec_position() == old(self).mouse.position_after(*event),
            final(self).mouse.buttons_before() == old(self).mouse.buttons_before(),
    {
        self.keyboard.propagate(event);
        self.mouse.propagate(event);
    }

    /// Ends the frame: the present state becomes the previous one.
    pub fn update(&mut self)
        ensures
            final(self).keyboard.keys_now() == old(self).keyboard.keys_now(),
            final(self).keyboard.keys_before() == old(self).keyboard.keys_now(),
            final(self).mouse.buttons_now() == old(self).mouse.buttons_now(),
            final(self).mouse.buttons_before() == old(self).mouse.buttons_now(),
            final(self).mouse.spec_position() == old(self).mouse.spec_position(),
    {
        self.keyboard.keys_ctrl = self.keyboard.keys;
        self.mouse.buttons_ctrl = self.mouse.buttons;
    }

    pub fn key_down(&self, key: usize) -> (b: bool)
        requires
            key < KEY_COUNT,
        ensures
            b == self.keyboard.keys_now()[key as int],
    {
        self.keyboard.key_down(key)
    }

    pub fn key_up(&self, key: usize) -> (b: bool)
        requires
            key < KEY_COUNT,
        ensures
            b == !self.keyboard.keys_now()[key as int],
    {
        self.keyboard.key_up(key)
    }

    pub fn key_pressed(&self, key: usize) -> (b: bool)
        requires
            key < KEY_COUNT,
        ensures
            b == (self.keyboard.keys_now()[key as int] && !self.keyboard.keys_before()[key as int]),
    {
        self.keyboard.key_pressed(key)
    }

    pub fn key_released(&self, key: usize) -> (b: bool)
        requires
            key < KEY_COUNT,
        ensures
            b == (!self.keyboard.keys_now()[key as int] && self.keyboard.keys_before()[key as int]),
    {
        self.keyboard.key_released(key)
    }

    pub fn button_down(&self, button: usize) -> (b: bool)
        requires
            button < BUTTON_COUNT,
        ensures
            b == self.mouse.buttons_now()[button as int],
    {
        self.mouse.button_down(button)
    }

    pub fn button_up(&self, button: usize) -> (b: bool)
        requires
            button < BUTTON_COUNT,
        ensures
            b == !self.mouse.buttons_now()[button as int],
    {
        self.mouse.button_up(button)
    }

    pub fn button_pressed(&self, button: usize) -> (b: bool)
        requires
            button < BUTTON_COUNT,
        ensures
            b == (self.mouse.buttons_now()[button as int] && !self.mouse.buttons_before()[
                button as int
            ]),
    {
        self.mouse.button_pressed(button)
    }

    pub fn button_released(&self, button: usize) -> (b: bool)
        requires
            button < BUTTON_COUNT,
        ensures
            b == (!self.mouse.buttons_now()[button as int] && self.mouse.buttons_before()[
                button as int
            ]),
    {
        self.mouse.button_released(button)
    }
}

} // verus!
