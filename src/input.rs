use vstd::prelude::*;

verus! {

/// Key code of `q`.
pub const KEY_QUIT: i32 = 113;

/// Key code of the right arrow.
pub const KEY_RIGHT: i32 = 39;

/// Key code of the left arrow.
pub const KEY_LEFT: i32 = 37;

/// Key code of the down arrow.
pub const KEY_DOWN: i32 = 40;

/// Key code of the space bar.
pub const KEY_SPACE: i32 = 32;

/// What a key press asks of the frame-by-frame display.
#[derive(Clone, Copy, Debug, PartialEq, Eq, Structural)]
pub enum KeyboardInput {
    NextFrame,
    PreviousFrame,
    NextVideo,
    Quit,
}

/// The meaning of key `key`: with autoplay only `q` counts (it quits) and any
/// other key, or none, moves on; without it, `q` quits, the left arrow goes
/// back, the down arrow and space skip to the next video, and any other key
/// moves on.
pub open spec fn key_meaning(key: i32, autoplay: bool) -> KeyboardInput {
    if key == KEY_QUIT {
        KeyboardInput::Quit
    } else if autoplay {
        KeyboardInput::NextFrame
    } else if key == KEY_LEFT {
        KeyboardInput::PreviousFrame
    } else if key == KEY_DOWN || key == KEY_SPACE {
        KeyboardInput::NextVideo
    } else {
        KeyboardInput::NextFrame
    }
}

impl KeyboardInput {
    /// The meaning of key `key`, as `key_meaning` gives it.
    pub fn from_key(key: i32, autoplay: bool) -> (r: KeyboardInput)
        ensures
            r == key_meaning(key, autoplay),
    {
        if autoplay {
            if key == KEY_QUIT {
                return KeyboardInput::Quit;
            }
            return KeyboardInput::NextFrame;
        }
        match key {
            KEY_QUIT => KeyboardInput::Quit,
            KEY_RIGHT => KeyboardInput::NextFrame,
            KEY_LEFT => KeyboardInput::PreviousFrame,
            KEY_DOWN => KeyboardInput::NextVideo,
            KEY_SPACE => KeyboardInput::NextVideo,
            _ => KeyboardInput::NextFrame,
        }
    }
}

} // verus!
