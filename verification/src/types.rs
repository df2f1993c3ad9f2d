//! Shared enumerations: drawing color, font selection, input keys and
//! input event kinds.

use vstd::prelude::*;

verus! {

/// Drawing color for the framebuffer primitives.
///
/// `White` stores 0, `Black` stores 1, `Xor` toggles the pixel.
#[derive(Clone, Copy, PartialEq, Eq, Structural, Debug)]
pub enum Color {
    White,
    Black,
    Xor,
}

impl Color {
    /// Numeric code of the color in the host ABI.
    pub open spec fn code(self) -> u8 {
        match self {
            Color::White => 0,
            Color::Black => 1,
            Color::Xor => 2,
        }
    }

    /// Decode an ABI color code; codes above 2 are rejected.
    pub fn from_u8(value: u8) -> (r: Option<Color>)
        ensures
            r matches Some(c) ==> c.code() == value,
            r is None <==> value > 2,
    {
        match value {
            0 => Some(Color::White),
            1 => Some(Color::Black),
            2 => Some(Color::Xor),
            _ => None,
        }
    }

    /// Decode an ABI color code as the guest-facing dispatcher does:
    /// every code above 1 selects `Xor`.
    pub fn from_code_lossy(value: u32) -> (r: Color)
        ensures
            r == (if value == 0 {
                Color::White
            } else if value == 1 {
                Color::Black
            } else {
                Color::Xor
            }),
    {
        match value {
            0 => Color::White,
            1 => Color::Black,
            _ => Color::Xor,
        }
    }
}

/// Font selection for text drawing.
#[derive(Clone, Copy, PartialEq, Eq, Structural, Debug)]
pub enum Font {
    Primary,
    Secondary,
    Keyboard,
    BigNumbers,
}

impl Font {
    /// Numeric code of the font in the host ABI.
    pub open spec fn code(self) -> u8 {
        match self {
            Font::Primary => 0,
            Font::Secondary => 1,
            Font::Keyboard => 2,
            Font::BigNumbers => 3,
        }
    }

    /// Decode an ABI font code; codes above 3 are rejected.
    pub fn from_u8(value: u8) -> (r: Option<Font>)
        ensures
            r matches Some(f) ==> f.code() == value,
            r is None <==> value > 3,
    {
        match value {
            0 => Some(Font::Primary),
            1 => Some(Font::Secondary),
            2 => Some(Font::Keyboard),
            3 => Some(Font::BigNumbers),
            _ => None,
        }
    }

    /// Decode an ABI font code as the guest-facing dispatcher does:
    /// every code above 3 selects `BigNumbers`.
    pub fn from_code_lossy(value: u32) -> (r: Font)
        ensures
            r == (if value == 0 {
                Font::Primary
            } else if value == 1 {
                Font::Secondary
            } else if value == 2 {
                Font::Keyboard
            } else {
                Font::BigNumbers
            }),
    {
        match value {
            0 => Font::Primary,
            1 => Font::Secondary,
            2 => Font::Keyboard,
            _ => Font::BigNumbers,
        }
    }
}

/// The six physical keys.
#[derive(Clone, Copy, PartialEq, Eq, Structural, Debug)]
pub enum InputKey {
    Up,
    Down,
    Left,
    Right,
    Okay,
    Back,
}

/// Number of physical keys.
pub const KEY_COUNT: usize = 6;

impl InputKey {
    /// Index of the key in the per-key state table.
    pub open spec fn index(self) -> int {
        match self {
            InputKey::Up => 0,
            InputKey::Down => 1,
            InputKey::Left => 2,
            InputKey::Right => 3,
            InputKey::Okay => 4,
            InputKey::Back => 5,
        }
    }

    /// Index of the key in the per-key state table.
    pub fn as_index(self) -> (r: usize)
        ensures
            r == self.index(),
            r < KEY_COUNT,
    {
        match self {
            InputKey::Up => 0,
            InputKey::Down => 1,
            InputKey::Left => 2,
            InputKey::Right => 3,
            InputKey::Okay => 4,
            InputKey::Back => 5,
        }
    }

    /// Key for a state-table index; indices 5 and above give `Back`.
    pub fn from_index(index: usize) -> (r: InputKey)
        ensures
            index < KEY_COUNT ==> r.index() == index,
            index >= 5 ==> r == InputKey::Back,
    {
        match index {
            0 => InputKey::Up,
            1 => InputKey::Down,
            2 => InputKey::Left,
            3 => InputKey::Right,
            4 => InputKey::Okay,
            _ => InputKey::Back,
        }
    }

    /// Decode an ABI key code; codes above 5 are rejected.
    pub fn from_u8(value: u8) -> (r: Option<InputKey>)
        ensures
            r matches Some(k) ==> k.index() == value,
            r is None <==> value > 5,
    {
        match value {
            0 => Some(InputKey::Up),
            1 => Some(InputKey::Down),
            2 => Some(InputKey::Left),
            3 => Some(InputKey::Right),
            4 => Some(InputKey::Okay),
            5 => Some(InputKey::Back),
            _ => None,
        }
    }
}

/// Kinds of input events: the two raw edges and the three synthesized kinds.
#[derive(Clone, Copy, PartialEq, Eq, Structural, Debug)]
pub enum InputType {
    /// Key went down (raw edge).
    Press,
    /// Key went up (raw edge).
    Release,
    /// Released before the long-press threshold.
    ShortPress,
    /// Held past the long-press threshold.
    LongPress,
    /// Still held: auto-repeat.
    Repeat,
}

impl InputType {
    /// Numeric code of the event kind in the host ABI.
    pub open spec fn code(self) -> u8 {
        match self {
            InputType::Press => 0,
            InputType::Release => 1,
            InputType::ShortPress => 2,
            InputType::LongPress => 3,
            InputType::Repeat => 4,
        }
    }

    /// Numeric code of the event kind in the host ABI.
    pub fn as_code(self) -> (r: u8)
        ensures
            r == self.code(),
    {
        match self {
            InputType::Press => 0,
            InputType::Release => 1,
            InputType::ShortPress => 2,
            InputType::LongPress => 3,
            InputType::Repeat => 4,
        }
    }

    /// Decode an ABI event-kind code; codes above 4 are rejected.
    pub fn from_u8(value: u8) -> (r: Option<InputType>)
        ensures
            r matches Some(t) ==> t.code() == value,
            r is None <==> value > 4,
    {
        match value {
            0 => Some(InputType::Press),
            1 => Some(InputType::Release),
            2 => Some(InputType::ShortPress),
            3 => Some(InputType::LongPress),
            4 => Some(InputType::Repeat),
            _ => None,
        }
    }
}

} // verus!
