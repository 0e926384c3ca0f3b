//! What the player's keys and mouse ask of the world.
use vstd::prelude::*;
use crate::common::{WINDOW_HEIGHT, WINDOW_WIDTH};

verus! {

/// The keys the game reacts to, and all the others.
#[derive(Clone, Copy, Debug, PartialEq, Eq, Structural)]
pub enum Key {
    A,
    D,
    W,
    S,
    Space,
    Left,
    Right,
    Up,
    Down,
    M,
    O,
    L,
    Other,
}

/// An input event of the game window.
#[derive(Clone, Copy, Debug, PartialEq, Eq, Structural)]
pub enum InputEvent {
    KeyDown { key: Key, repeat: bool },
    KeyUp { key: Key, repeat: bool },
    /// The mouse moved to this position in the window, measured from the
    /// top left corner.
    MouseMotion { x: i32, y: i32 },
    Other,
}

/// What an input asks of the world, and of the view where it turns.
#[derive(Clone, Copy, Debug, PartialEq, Eq, Structural)]
pub enum InputAction {
    /// Change the walking acceleration by this unit vector (x to the right,
    /// z backwards).
    Walk(i32, i32, i32),
    StartJump,
    StopJump,
    /// Turn the player, and the view, by these twelfths of half a turn:
    /// sideways to the left, then upwards.
    Rotate(i32, i32),
    /// Turn the player, and the view, by the mouse's offset from the centre
    /// of the window, in pixels: to the right, then upwards.
    Look(i32, i32),
    /// Draw the line of sight: from the player's eye, 32 units ahead.
    MarkLineOfSight,
    /// Start or stop drawing the octree.
    ToggleOctree,
    /// Start or stop drawing the outlines of the blocks.
    ToggleOutlines,
}

/// What pressing a key asks.
pub open spec fn press_action(key: Key) -> Option<InputAction> {
    match key {
        Key::A => Some(InputAction::Walk(-1i32, 0, 0)),
        Key::D => Some(InputAction::Walk(1, 0, 0)),
        Key::Space => Some(InputAction::StartJump),
        Key::W => Some(InputAction::Walk(0, 0, -1i32)),
        Key::S => Some(InputAction::Walk(0, 0, 1)),
        Key::Left => Some(InputAction::Rotate(1, 0)),
        Key::Right => Some(InputAction::Rotate(-1i32, 0)),
        Key::Up => Some(InputAction::Rotate(0, 1)),
        Key::Down => Some(InputAction::Rotate(0, -1i32)),
        Key::M => Some(InputAction::MarkLineOfSight),
        Key::O => Some(InputAction::ToggleOctree),
        Key::L => Some(InputAction::ToggleOutlines),
        Key::Other => None,
    }
}

/// What releasing a key asks: the walking accelerations are negated from
/// those of the press.
pub open spec fn release_action(key: Key) -> Option<InputAction> {
    match key {
        Key::A => Some(InputAction::Walk(1, 0, 0)),
        Key::D => Some(InputAction::Walk(-1i32, 0, 0)),
        Key::Space => Some(InputAction::StopJump),
        Key::W => Some(InputAction::Walk(0, 0, 1)),
        Key::S => Some(InputAction::Walk(0, 0, -1i32)),
        _ => None,
    }
}

/// The offset of a mouse position from the centre of the window: to the
/// right, and upwards (the position's y is measured downwards).
pub open spec fn mouse_offset(x: int, y: int) -> (int, int) {
    (x - WINDOW_WIDTH / 2, WINDOW_HEIGHT / 2 - y)
}

/// The mouse positions whose offset from the centre is a machine number.
pub open spec fn mouse_fits(x: int, y: int) -> bool {
    &&& i32::MIN <= x - WINDOW_WIDTH / 2
    &&& WINDOW_HEIGHT / 2 - y <= i32::MAX
}

/// What an input event asks: key repeats ask nothing.
pub open spec fn event_action(event: InputEvent) -> Option<InputAction> {
    match event {
        InputEvent::KeyDown { key, repeat } => if repeat {
            None
        } else {
            press_action(key)
        },
        InputEvent::KeyUp { key, repeat } => if repeat {
            None
        } else {
            release_action(key)
        },
        InputEvent::MouseMotion { x, y } => Some(
            InputAction::Look(mouse_offset(x as int, y as int).0 as i32, mouse_offset(x as int, y as int).1 as i32),
        ),
        InputEvent::Other => None,
    }
}

/// What an input event asks of the world.
pub fn process_event(event: InputEvent) -> (r: Option<InputAction>)
    requires
        event matches InputEvent::MouseMotion { x, y } ==> mouse_fits(x as int, y as int),
    ensures
        r == event_action(event),
        event matches InputEvent::KeyDown { key, repeat } ==> r == (if repeat {
            None
        } else {
            press_action(key)
        }),
        event matches InputEvent::KeyUp { key, repeat } ==> r == (if repeat {
            None
        } else {
            release_action(key)
        }),
        event matches InputEvent::MouseMotion { x, y } ==> r == Some(
            InputAction::Look(
                (x - WINDOW_WIDTH / 2) as i32,
                (WINDOW_HEIGHT / 2 - y) as i32,
            ),
        ),
        event is Other ==> r is None,
{
    match event {
        InputEvent::KeyDown { key, repeat } => {
            if !repeat {
                key_press(key)
            } else {
                None
            }
        },
        InputEvent::KeyUp { key, repeat } => {
            if !repeat {
                key_release(key)
            } else {
                None
            }
        },
        InputEvent::MouseMotion { x, y } => Some(mouse_move(x, y)),
        InputEvent::Other => None,
    }
}

/// What pressing `key` asks.
pub fn key_press(key: Key) -> (r: Option<InputAction>)
    ensures
        r == press_action(key),
{
    match key {
        Key::A => Some(InputAction::Walk(-1i32, 0, 0)),
        Key::D => Some(InputAction::Walk(1, 0, 0)),
        Key::Space => Some(InputAction::StartJump),
        Key::W => Some(InputAction::Walk(0, 0, -1i32)),
        Key::S => Some(InputAction::Walk(0, 0, 1)),
        Key::Left => Some(InputAction::Rotate(1, 0)),
        Key::Right => Some(InputAction::Rotate(-1i32, 0)),
        Key::Up => Some(InputAction::Rotate(0, 1)),
        Key::Down => Some(InputAction::Rotate(0, -1i32)),
        Key::M => Some(InputAction::MarkLineOfSight),
        Key::O => Some(InputAction::ToggleOctree),
        Key::L => Some(InputAction::ToggleOutlines),
        Key::Other => None,
    }
}

/// What releasing `key` asks.
pub fn key_release(key: Key) -> (r: Option<InputAction>)
    ensures
        r == release_action(key),
{
    match key {
        Key::A => Some(InputAction::Walk(1, 0, 0)),
        Key::D => Some(InputAction::Walk(-1i32, 0, 0)),
        Key::Space => Some(InputAction::StopJump),
        Key::W => Some(InputAction::Walk(0, 0, 1)),
        Key::S => Some(InputAction::Walk(0, 0, -1i32)),
        _ => None,
    }
}

/// What moving the mouse to `(x, y)` asks: a turn by its offset from the
/// centre of the window, where the window puts the mouse back.
pub fn mouse_move(x: i32, y: i32) -> (r: InputAction)
    requires
        mouse_fits(x as int, y as int),
    ensures
        r == InputAction::Look(
            mouse_offset(x as int, y as int).0 as i32,
            mouse_offset(x as int, y as int).1 as i32,
        ),
{
    let (cx, cy) = (WINDOW_WIDTH as i32 / 2, WINDOW_HEIGHT as i32 / 2);
    // y is measured from the top of the window.
    let (dx, dy) = (x - cx, cy - y);
    InputAction::Look(dx, dy)
}

/// Pressing a key and releasing it again leaves the walking acceleration and
/// the jump as they were: each walking step pressed is taken back on release,
/// and a jump started is stopped.
pub proof fn release_undoes_press(key: Key)
    ensures
        press_action(key) matches Some(InputAction::Walk(x, y, z)) ==> release_action(key)
            == Some(InputAction::Walk(-x as i32, -y as i32, -z as i32)),
        press_action(key) == Some(InputAction::StartJump) <==> release_action(key) == Some(
            InputAction::StopJump,
        ),
        press_action(key) matches Some(InputAction::Rotate(_, _)) ==> release_action(key) is None,
        press_action(key) == Some(InputAction::MarkLineOfSight) || press_action(key) == Some(
            InputAction::ToggleOctree,
        ) || press_action(key) == Some(InputAction::ToggleOutlines) ==> release_action(key) is None,
        press_action(key) is None ==> release_action(key) is None,
{
}

/// Releasing a key undoes, through the events of the window, what pressing it
/// did: the release event of a key that walks walks back, the release event of
/// the jump key stops the jump that its press event started, and the events
/// of held keys repeating ask nothing.
pub proof fn key_events_release_undoes_press(key: Key)
    ensures
        event_action(InputEvent::KeyDown { key, repeat: false }) matches Some(
            InputAction::Walk(x, y, z),
        ) ==> event_action(InputEvent::KeyUp { key, repeat: false }) == Some(
            InputAction::Walk(-x as i32, -y as i32, -z as i32),
        ),
        event_action(InputEvent::KeyDown { key, repeat: false }) == Some(InputAction::StartJump)
            <==> event_action(InputEvent::KeyUp { key, repeat: false }) == Some(
            InputAction::StopJump,
        ),
        key == Key::Space ==> event_action(InputEvent::KeyDown { key, repeat: false }) == Some(
            InputAction::StartJump,
        ),
        event_action(InputEvent::KeyDown { key, repeat: true }) is None,
        event_action(InputEvent::KeyUp { key, repeat: true }) is None,
{
    release_undoes_press(key);
}

} // verus!
