//! Navigation keybinds: which key a key press stands for, and the hint shown for it.

use vstd::prelude::*;

verus! {

/// The keys navigation reads; every other key is `Other`.
#[derive(Clone, Copy, Debug, PartialEq, Eq, Structural)]
pub enum KeyCode {
    Left,
    Right,
    Up,
    Down,
    PageUp,
    PageDown,
    Home,
    End,
    Other,
}

/// A horizontal choice.
#[derive(Clone, Copy, Debug, PartialEq, Eq, Structural)]
pub enum LeftRightKey {
    Left,
    Right,
}

/// A step up or down a list.
#[derive(Clone, Copy, Debug, PartialEq, Eq, Structural)]
pub enum UpDownKey {
    Up,
    Down,
}

/// A move through a list: by one, by a page, or to either end.
#[derive(Clone, Copy, Debug, PartialEq, Eq, Structural)]
pub enum UpDownExtendedKey {
    Up,
    Down,
    PageUp,
    PageDown,
    Home,
    End,
}

/// The keybind for choosing left or right.
pub struct LeftRightKeybind {
    description: &'static str,
}

impl LeftRightKeybind {
    /// What the left/right keys mean, `None` for any other key.
    pub open spec fn meaning(code: KeyCode) -> Option<LeftRightKey> {
        match code {
            KeyCode::Left => Some(LeftRightKey::Left),
            KeyCode::Right => Some(LeftRightKey::Right),
            _ => None,
        }
    }

    /// A keybind with the given description.
    pub fn new(description: &'static str) -> (r: Self)
        ensures
            r.spec_description()@ == description@,
    {
        LeftRightKeybind { description }
    }

    /// The description shown next to the key hint.
    pub closed spec fn spec_description(&self) -> &'static str {
        self.description
    }

    /// Which direction a key press chooses, if any.
    pub fn get_match(&self, code: KeyCode) -> (r: Option<LeftRightKey>)
        ensures
            r == Self::meaning(code),
    {
        match code {
            KeyCode::Left => Some(LeftRightKey::Left),
            KeyCode::Right => Some(LeftRightKey::Right),
            _ => None,
        }
    }

    /// Whether a key press belongs to this keybind.
    pub fn is_match(&self, code: KeyCode) -> (r: bool)
        ensures
            r == Self::meaning(code) is Some,
    {
        self.get_match(code).is_some()
    }

    /// The hint shown for this keybind.
    pub fn key_hint(&self) -> (r: &'static str)
        ensures
            r@ == seq!['⇆'],
    {
        proof {
            reveal_strlit("⇆");
        }
        "⇆"
    }

    /// The description shown for this keybind.
    pub fn description(&self) -> (r: &'static str)
        ensures
            r == self.spec_description(),
    {
        self.description
    }
}

/// The keybind for stepping up or down a list.
pub struct UpDownKeybind {
    description: &'static str,
}

impl UpDownKeybind {
    /// What the up/down keys mean, `None` for any other key.
    pub open spec fn meaning(code: KeyCode) -> Option<UpDownKey> {
        match code {
            KeyCode::Up => Some(UpDownKey::Up),
            KeyCode::Down => Some(UpDownKey::Down),
            _ => None,
        }
    }

    /// A keybind with the given description.
    pub fn new(description: &'static str) -> (r: Self)
        ensures
            r.spec_description()@ == description@,
    {
        UpDownKeybind { description }
    }

    /// The description shown next to the key hint.
    pub closed spec fn spec_description(&self) -> &'static str {
        self.description
    }

    /// Which step a key press makes, if any.
    pub fn get_match(&self, code: KeyCode) -> (r: Option<UpDownKey>)
        ensures
            r == Self::meaning(code),
    {
        match code {
            KeyCode::Up => Some(UpDownKey::Up),
            KeyCode::Down => Some(UpDownKey::Down),
            _ => None,
        }
    }

    /// Whether a key press belongs to this keybind.
    pub fn is_match(&self, code: KeyCode) -> (r: bool)
        ensures
            r == Self::meaning(code) is Some,
    {
        self.get_match(code).is_some()
    }

    /// The hint shown for this keybind.
    pub fn key_hint(&self) -> (r: &'static str)
        ensures
            r@ == seq!['⇅'],
    {
        proof {
            reveal_strlit("⇅");
        }
        "⇅"
    }

    /// The description shown for this keybind.
    pub fn description(&self) -> (r: &'static str)
        ensures
            r == self.spec_description(),
    {
        self.description
    }
}

/// The keybind for moving through a list by one, by a page, or to either end.
pub struct UpDownExtendedKeybind {
    description: &'static str,
}

impl UpDownExtendedKeybind {
    /// What the navigation keys mean, `None` for any other key.
    pub open spec fn meaning(code: KeyCode) -> Option<UpDownExtendedKey> {
        match code {
            KeyCode::Up => Some(UpDownExtendedKey::Up),
            KeyCode::Down => Some(UpDownExtendedKey::Down),
            KeyCode::PageUp => Some(UpDownExtendedKey::PageUp),
            KeyCode::PageDown => Some(UpDownExtendedKey::PageDown),
            KeyCode::Home => Some(UpDownExtendedKey::Home),
            KeyCode::End => Some(UpDownExtendedKey::End),
            _ => None,
        }
    }

    /// A keybind with the given description.
    pub fn new(description: &'static str) -> (r: Self)
        ensures
            r.spec_description()@ == description@,
    {
        UpDownExtendedKeybind { description }
    }

    /// The description shown next to the key hint.
    pub closed spec fn spec_description(&self) -> &'static str {
        self.description
    }

    /// Which move a key press makes, if any.
    pub fn get_match(&self, code: KeyCode) -> (r: Option<UpDownExtendedKey>)
        ensures
            r == Self::meaning(code),
    {
        match code {
            KeyCode::Up => Some(UpDownExtendedKey::Up),
            KeyCode::Down => Some(UpDownExtendedKey::Down),
            KeyCode::PageUp => Some(UpDownExtendedKey::PageUp),
            KeyCode::PageDown => Some(UpDownExtendedKey::PageDown),
            KeyCode::Home => Some(UpDownExtendedKey::Home),
            KeyCode::End => Some(UpDownExtendedKey::End),
            _ => None,
        }
    }

    /// Whether a key press belongs to this keybind.
    pub fn is_match(&self, code: KeyCode) -> (r: bool)
        ensures
            r == Self::meaning(code) is Some,
    {
        self.get_match(code).is_some()
    }

    /// The hint shown for this keybind.
    pub fn key_hint(&self) -> (r: &'static str)
        ensures
            r@ == seq!['⇅'],
    {
        proof {
            reveal_strlit("⇅");
        }
        "⇅"
    }

    /// The description shown for this keybind.
    pub fn description(&self) -> (r: &'static str)
        ensures
            r == self.spec_description(),
    {
        self.description
    }
}

} // verus!
