use vstd::prelude::*;

use crate::event::{InputEvent, Vec2_32};

verus! {

/// A piece of input state that remembers whether it was written since it was
/// last reported.
pub struct InputState<T> {
    val: T,
    modified: bool,
}

impl<T> InputState<T> {
    /// The value held.
    pub closed spec fn value(&self) -> T {
        self.val
    }

    /// Whether the value was written since `updated` last reported it.
    pub closed spec fn is_modified(&self) -> bool {
        self.modified
    }

    /// Holds `val`, not yet written.
    pub fn new(val: T) -> (r: Self)
        ensures
            r.value() == val,
            !r.is_modified(),
    {
        InputState { val, modified: false }
    }

    /// The value, the first time this is called after it was written, and
    /// nothing otherwise.
    pub fn updated(&mut self) -> (r: Option<&T>)
        ensures
            !final(self).is_modified(),
            final(self).value() == old(self).value(),
            old(self).is_modified() ==> r == Some(&old(self).value()),
            !old(self).is_modified() ==> r is None,
    {
        if self.modified {
            self.modified = false;
            Some(&self.val)
        } else {
            None
        }
    }

    /// The value held.
    pub fn get(&self) -> (r: &T)
        ensures
            *r == self.value(),
    {
        &self.val
    }

    /// Write access to the value; this counts as a write even if nothing is
    /// changed.
    pub fn get_mut(&mut self) -> (r: &mut T)
        ensures
            *r == old(self).value(),
            final(self).value() == *final(r),
            final(self).is_modified(),
    {
        self.modified = true;
        &mut self.val
    }
}


/// The IEEE 754 single-precision bit pattern of one.
pub const ONE_BITS: u32 = 0x3f80_0000u32;

/// The IEEE 754 single-precision bit pattern of minus one.
pub const MINUS_ONE_BITS: u32 = 0xbf80_0000u32;

/// The direction of one axis of camera movement.
#[derive(Clone, Copy, PartialEq, Eq, Structural, Debug)]
pub enum Axis {
    Negative,
    Zero,
    Positive,
}

/// The single-precision bit pattern of an axis direction: minus one, zero or one.
pub open spec fn axis_bits(a: Axis) -> u32 {
    match a {
        Axis::Negative => MINUS_ONE_BITS,
        Axis::Zero => 0,
        Axis::Positive => ONE_BITS,
    }
}

/// The keys that the game reads.
#[derive(Clone, Copy, PartialEq, Eq, Structural, Debug)]
pub enum Key {
    W,
    A,
    S,
    D,
    Space,
    Other,
}

/// The mouse buttons that the game reads.
#[derive(Clone, Copy, PartialEq, Eq, Structural, Debug)]
pub enum Button {
    Left,
    Middle,
    Other,
}

/// Input from the window: the cursor position as single-precision bit
/// patterns, a key or a mouse button pressed or released, and the window size.
#[derive(Clone, Copy, PartialEq, Eq, Structural, Debug)]
pub enum WindowInput {
    CursorMoved(Vec2_32),
    Key { key: Key, pressed: bool },
    MouseButton { button: Button, pressed: bool },
    Resized { width: u32, height: u32 },
}

/// The input state of the player. Float quantities are held as their
/// single-precision bit patterns: the cursor position, and the camera rotation
/// and zoom gathered since the last update.
pub struct GameInput {
    window_width: u32,
    window_height: u32,
    cursor_position: InputState<Vec2_32>,
    left_mouse_button: InputState<bool>,
    movement_x: Axis,
    movement_y: Axis,
    camera_rotating: bool,
    camera_rotation: Vec2_32,
    camera_zoom: u32,
}

/// The input state as values.
pub struct GameInputModel {
    pub window: (u32, u32),
    pub cursor: Vec2_32,
    pub cursor_modified: bool,
    pub left_button: bool,
    pub left_button_modified: bool,
    pub movement: (Axis, Axis),
    pub rotating: bool,
    pub rotation: Vec2_32,
    pub zoom: u32,
}

/// The input state after the window input `ev`: a cursor move records the
/// position; W and S set the forward axis and A and D the sideways one while
/// pressed, back to zero when released; space or the middle button turn the
/// camera while held; the left button is recorded; a resize records the size.
pub open spec fn after_window_input(m: GameInputModel, ev: WindowInput) -> GameInputModel {
    match ev {
        WindowInput::CursorMoved(p) => GameInputModel { cursor: p, cursor_modified: true, ..m },
        WindowInput::Key { key, pressed } => match key {
            Key::W => GameInputModel {
                movement: (m.movement.0, if pressed { Axis::Positive } else { Axis::Zero }),
                ..m
            },
            Key::A => GameInputModel {
                movement: (if pressed { Axis::Negative } else { Axis::Zero }, m.movement.1),
                ..m
            },
            Key::S => GameInputModel {
                movement: (m.movement.0, if pressed { Axis::Negative } else { Axis::Zero }),
                ..m
            },
            Key::D => GameInputModel {
                movement: (if pressed { Axis::Positive } else { Axis::Zero }, m.movement.1),
                ..m
            },
            Key::Space => GameInputModel { rotating: pressed, ..m },
            Key::Other => m,
        },
        WindowInput::MouseButton { button, pressed } => match button {
            Button::Left => GameInputModel { left_button: pressed, left_button_modified: true, ..m },
            Button::Middle => GameInputModel { rotating: pressed, ..m },
            Button::Other => m,
        },
        WindowInput::Resized { width, height } => GameInputModel { window: (width, height), ..m },
    }
}

/// The input events of an update: a cursor move and the left button, if
/// they changed since the last update, then the three camera axes.
pub open spec fn update_events(m: GameInputModel) -> Seq<InputEvent> {
    let cursor: Seq<InputEvent> = if m.cursor_modified { seq![InputEvent::CursorMoved] } else { Seq::empty() };
    let button: Seq<InputEvent> = if m.left_button_modified {
        seq![InputEvent::MouseButton(m.left_button)]
    } else {
        Seq::empty()
    };
    cursor + button + seq![
        InputEvent::CameraMoveAxis(Vec2_32 { x: axis_bits(m.movement.0), y: axis_bits(m.movement.1) }),
        InputEvent::CameraRotateAxis(m.rotation),
        InputEvent::CameraZoom(m.zoom),
    ]
}

impl GameInput {
    /// The input state as values.
    pub closed spec fn model(&self) -> GameInputModel {
        GameInputModel {
            window: (self.window_width, self.window_height),
            cursor: self.cursor_position.value(),
            cursor_modified: self.cursor_position.is_modified(),
            left_button: self.left_mouse_button.value(),
            left_button_modified: self.left_mouse_button.is_modified(),
            movement: (self.movement_x, self.movement_y),
            rotating: self.camera_rotating,
            rotation: self.camera_rotation,
            zoom: self.camera_zoom,
        }
    }

    /// Input for a window of `width` by `height`: cursor at the origin,
    /// nothing pressed, nothing to report.
    pub fn new(width: u32, height: u32) -> (r: Self)
        ensures
            r.model() == (GameInputModel {
                window: (width, height),
                cursor: Vec2_32 { x: 0, y: 0 },
                cursor_modified: false,
                left_button: false,
                left_button_modified: false,
                movement: (Axis::Zero, Axis::Zero),
                rotating: false,
                rotation: Vec2_32 { x: 0, y: 0 },
                zoom: 0,
            }),
    {
        GameInput {
            window_width: width,
            window_height: height,
            cursor_position: InputState::new(Vec2_32 { x: 0, y: 0 }),
            left_mouse_button: InputState::new(false),
            movement_x: Axis::Zero,
            movement_y: Axis::Zero,
            camera_rotating: false,
            camera_rotation: Vec2_32 { x: 0, y: 0 },
            camera_zoom: 0,
        }
    }

    /// Records input from the window.
    pub fn handle_input(&mut self, ev: WindowInput)
        ensures
            final(self).model() == after_window_input(old(self).model(), ev),
    {
        match ev {
            WindowInput::CursorMoved(p) => {
                *self.cursor_position.get_mut() = p;
            },
            WindowInput::Key { key, pressed } => match key {
                Key::W => {
                    self.movement_y = if pressed { Axis::Positive } else { Axis::Zero };
                },
                Key::A => {
                    self.movement_x = if pressed { Axis::Negative } else { Axis::Zero };
                },
                Key::S => {
                    self.movement_y = if pressed { Axis::Negative } else { Axis::Zero };
                },
                Key::D => {
                    self.movement_x = if pressed { Axis::Positive } else { Axis::Zero };
                },
                Key::Space => {
                    self.camera_rotating = pressed;
                },
                Key::Other => {},
            },
            WindowInput::MouseButton { button, pressed } => match button {
                Button::Left => {
                    *self.left_mouse_button.get_mut() = pressed;
                },
                Button::Middle => {
                    self.camera_rotating = pressed;
                },
                Button::Other => {},
            },
            WindowInput::Resized { width, height } => {
                self.window_width = width;
                self.window_height = height;
            },
        }
    }

    /// Whether the camera turns with the mouse.
    pub fn camera_rotating(&self) -> (r: bool)
        ensures
            r == self.model().rotating,
    {
        self.camera_rotating
    }

    /// The camera rotation gathered since the last update.
    pub fn camera_rotation(&self) -> (r: Vec2_32)
        ensures
            r == self.model().rotation,
    {
        self.camera_rotation
    }

    /// Sets the camera rotation gathered since the last update.
    pub fn set_camera_rotation(&mut self, rotation: Vec2_32)
        ensures
            final(self).model() == (GameInputModel { rotation, ..old(self).model() }),
    {
        self.camera_rotation = rotation;
    }

    /// The camera zoom gathered since the last update.
    pub fn camera_zoom(&self) -> (r: u32)
        ensures
            r == self.model().zoom,
    {
        self.camera_zoom
    }

    /// Sets the camera zoom gathered since the last update.
    pub fn set_camera_zoom(&mut self, zoom: u32)
        ensures
            final(self).model() == (GameInputModel { zoom, ..old(self).model() }),
    {
        self.camera_zoom = zoom;
    }

    /// The cursor position.
    pub fn cursor_position(&self) -> (r: Vec2_32)
        ensures
            r == self.model().cursor,
    {
        *self.cursor_position.get()
    }

    /// The window size.
    pub fn window_size(&self) -> (r: (u32, u32))
        ensures
            r == self.model().window,
    {
        (self.window_width, self.window_height)
    }

    /// Reports the input of the frame to `events` and starts gathering camera
    /// rotation and zoom anew.
    pub fn update(&mut self, events: &mut Vec<InputEvent>)
        ensures
            final(events)@ == old(events)@ + update_events(old(self).model()),
            final(self).model() == (GameInputModel {
                cursor_modified: false,
                left_button_modified: false,
                rotation: Vec2_32 { x: 0, y: 0 },
                zoom: 0,
                ..old(self).model()
            }),
    {
        if self.cursor_position.updated().is_some() {
            events.push(InputEvent::CursorMoved);
        }
        let button = self.left_mouse_button.updated();
        if let Some(pressed) = button {
            events.push(InputEvent::MouseButton(*pressed));
        }
        let x = axis_value(self.movement_x);
        let y = axis_value(self.movement_y);
        events.push(InputEvent::CameraMoveAxis(Vec2_32 { x, y }));
        events.push(InputEvent::CameraRotateAxis(self.camera_rotation));
        events.push(InputEvent::CameraZoom(self.camera_zoom));
        self.camera_rotation = Vec2_32 { x: 0, y: 0 };
        self.camera_zoom = 0;
        assert(events@ =~= old(events)@ + update_events(old(self).model()));
    }
}

/// The single-precision bit pattern of an axis direction.
fn axis_value(a: Axis) -> (r: u32)
    ensures
        r == axis_bits(a),
{
    match a {
        Axis::Negative => MINUS_ONE_BITS,
        Axis::Zero => 0,
        Axis::Positive => ONE_BITS,
    }
}

} // verus!
