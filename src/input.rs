//! The decisions behind camera input: when input steers the camera, when the
//! cursor is grabbed or released, and which way the held keys push.
use vstd::prelude::*;

verus! {

/// Whether the window has focus and whether the cursor is grabbed by it.
/// Input steers the camera only while both hold.
#[derive(Debug, Clone, Copy, PartialEq, Eq, Structural)]
pub struct FocusState {
    pub window_focused: bool,
    pub grabbed: bool,
}

/// What the window should do with the cursor after a frame of input.
#[derive(Debug, Clone, Copy, PartialEq, Eq, Structural)]
pub enum CursorAction {
    /// Leave the cursor as it is.
    Keep,
    /// Lock the cursor to the window and hide it.
    Grab,
    /// Unlock the cursor and show it.
    Release,
}

impl Default for FocusState {
    /// The window starts focused, with the cursor free.
    fn default() -> (r: FocusState)
        ensures
            r.window_focused && !r.grabbed,
    {
        FocusState { window_focused: true, grabbed: false }
    }
}

impl FocusState {
    /// Whether input should steer the camera now.
    pub fn input_active(&self) -> (r: bool)
        ensures
            r == (self.window_focused && self.grabbed),
    {
        self.window_focused && self.grabbed
    }

    /// Records that a window gained or lost focus; only the primary window
    /// counts.
    pub fn on_focus_changed(&mut self, is_primary: bool, focused: bool)
        ensures
            final(self).grabbed == old(self).grabbed,
            final(self).window_focused == if is_primary { focused } else { old(self).window_focused },
    {
        if is_primary {
            self.window_focused = focused;
        }
    }

    /// Takes a frame's clicks and key presses: a left click grabs the
    /// cursor, and escape releases it, winning over a click in the same
    /// frame.
    pub fn on_buttons(&mut self, left_click: bool, escape: bool) -> (r: CursorAction)
        ensures
            final(self).window_focused == old(self).window_focused,
            final(self).grabbed == if escape { false } else if left_click { true } else { old(self).grabbed },
            r == if escape {
                CursorAction::Release
            } else if left_click {
                CursorAction::Grab
            } else {
                CursorAction::Keep
            },
    {
        let mut action = CursorAction::Keep;
        if left_click {
            self.grabbed = true;
            action = CursorAction::Grab;
        }
        if escape {
            self.grabbed = false;
            action = CursorAction::Release;
        }
        action
    }
}

/// A key that moves the camera.
#[derive(Debug, Clone, Copy, PartialEq, Eq, Structural)]
pub enum MoveKey {
    Forward,
    Back,
    Left,
    Right,
    Up,
    Down,
}

/// Which movement keys are held.
#[derive(Debug, Clone, Copy, PartialEq, Eq, Structural)]
pub struct MovementKeys {
    pub forward: bool,
    pub back: bool,
    pub left: bool,
    pub right: bool,
    pub up: bool,
    pub down: bool,
}

/// `1` for a held key, `0` for a released one.
pub open spec fn held(b: bool) -> int {
    if b { 1 } else { 0 }
}

/// One step along an axis from two opposing keys: `1`, `-1`, or `0` when
/// both or neither are held.
fn axis(plus: bool, minus: bool) -> (r: i8)
    ensures
        r == held(plus) - held(minus),
{
    (plus as i8) - (minus as i8)
}

impl MovementKeys {
    /// No key held.
    pub fn new() -> (r: MovementKeys)
        ensures
            !r.forward && !r.back && !r.left && !r.right && !r.up && !r.down,
    {
        MovementKeys { forward: false, back: false, left: false, right: false, up: false, down: false }
    }

    /// Records that `key` was pressed or released.
    pub fn set_key(&mut self, key: MoveKey, pressed: bool)
        ensures
            final(self).forward == if key == MoveKey::Forward { pressed } else { old(self).forward },
            final(self).back == if key == MoveKey::Back { pressed } else { old(self).back },
            final(self).left == if key == MoveKey::Left { pressed } else { old(self).left },
            final(self).right == if key == MoveKey::Right { pressed } else { old(self).right },
            final(self).up == if key == MoveKey::Up { pressed } else { old(self).up },
            final(self).down == if key == MoveKey::Down { pressed } else { old(self).down },
    {
        match key {
            MoveKey::Forward => self.forward = pressed,
            MoveKey::Back => self.back = pressed,
            MoveKey::Left => self.left = pressed,
            MoveKey::Right => self.right = pressed,
            MoveKey::Up => self.up = pressed,
            MoveKey::Down => self.down = pressed,
        }
    }

    /// The push the held keys give, as (right, forward, up) steps of `-1`,
    /// `0` or `1`.
    pub fn net_movement(&self) -> (r: (i8, i8, i8))
        ensures
            r.0 == held(self.right) - held(self.left),
            r.1 == held(self.forward) - held(self.back),
            r.2 == held(self.up) - held(self.down),
    {
        (axis(self.right, self.left), axis(self.forward, self.back), axis(self.up, self.down))
    }
}

} // verus!
