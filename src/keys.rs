use vstd::prelude::*;

verus! {

/// A key that can be pressed on the synthesized keyboard.
#[derive(Clone, Copy, Debug, PartialEq, Eq, Structural)]
pub enum KbdKey {
    Shift,
    Control,
    Alt,
    Escape,
    /// A character key, as found on the current keyboard layout.
    Layout(char),
}

/// One primitive step of a key sequence.
#[derive(Clone, Copy, Debug, PartialEq, Eq, Structural)]
pub enum Event {
    /// Pause for the given number of milliseconds.
    Delay(u64),
    KeyDown(KbdKey),
    KeyUp(KbdKey),
    /// Bring the held modifiers to exactly the given one (or none).
    NoteMod(Option<KbdKey>),
}

/// What the key simulator and the clock are asked to do.
#[derive(Clone, Copy, Debug, PartialEq, Eq, Structural)]
pub enum Action {
    Sleep(u64),
    Press(KbdKey),
    Release(KbdKey),
}

} // verus!
