use vstd::prelude::*;
use crate::keys::{Action, KbdKey};

verus! {

/// Tracks which of the coalesced modifiers (Shift, Control) are held.
#[derive(Clone, Copy, Debug, PartialEq, Eq, Structural)]
pub struct ModifierCoalescer {
    pub shift: bool,
    pub control: bool,
}

/// The transitions that bring `(shift, control)` to the state `desired` asks
/// for: Shift is handled first, then Control.
pub open spec fn transitions_spec(shift: bool, control: bool, desired: Option<KbdKey>) -> Seq<Action> {
    let want_shift = desired == Some(KbdKey::Shift);
    let want_control = desired == Some(KbdKey::Control);
    let s: Seq<Action> = if want_shift && !shift {
        seq![Action::Press(KbdKey::Shift)]
    } else if !want_shift && shift {
        seq![Action::Release(KbdKey::Shift)]
    } else {
        seq![]
    };
    let c: Seq<Action> = if want_control && !control {
        seq![Action::Press(KbdKey::Control)]
    } else if !want_control && control {
        seq![Action::Release(KbdKey::Control)]
    } else {
        seq![]
    };
    s + c
}

impl ModifierCoalescer {
    /// The state after `set(desired)`: exactly the desired tracked modifier is held.
    pub open spec fn after_set(desired: Option<KbdKey>) -> ModifierCoalescer {
        ModifierCoalescer {
            shift: desired == Some(KbdKey::Shift),
            control: desired == Some(KbdKey::Control),
        }
    }

    pub fn new() -> (r: ModifierCoalescer)
        ensures
            !r.shift && !r.control,
    {
        ModifierCoalescer { shift: false, control: false }
    }

    /// Whether `key` is one of the modifiers this coalescer tracks.
    pub open spec fn tracks(key: KbdKey) -> bool {
        key == KbdKey::Shift || key == KbdKey::Control
    }

    /// Records that `key` was pressed or released outside `set`.
    pub fn note_key(&mut self, key: KbdKey, down: bool)
        ensures
            final(self).shift == (if key == KbdKey::Shift { down } else { old(self).shift }),
            final(self).control == (if key == KbdKey::Control { down } else { old(self).control }),
    {
        match key {
            KbdKey::Shift => { self.shift = down; },
            KbdKey::Control => { self.control = down; },
            _ => {},
        }
    }

    /// Presses the desired tracked modifier if it is not held and releases
    /// every other held one, appending those transitions to `out`. Returns
    /// whether any transition occurred.
    pub fn set(&mut self, desired: Option<KbdKey>, out: &mut Vec<Action>) -> (changed: bool)
        ensures
            *final(self) == Self::after_set(desired),
            final(out)@ == old(out)@ + transitions_spec(old(self).shift, old(self).control, desired),
            changed == (transitions_spec(old(self).shift, old(self).control, desired).len() > 0),
            changed == (*old(self) != Self::after_set(desired)),
    {
        let want_shift = match desired { Some(KbdKey::Shift) => true, _ => false };
        let want_control = match desired { Some(KbdKey::Control) => true, _ => false };
        let ghost start = out@;
        let mut changed = false;
        if want_shift && !self.shift {
            out.push(Action::Press(KbdKey::Shift));
            changed = true;
        } else if !want_shift && self.shift {
            out.push(Action::Release(KbdKey::Shift));
            changed = true;
        }
        let ghost mid = out@;
        if want_control && !self.control {
            out.push(Action::Press(KbdKey::Control));
            changed = true;
        } else if !want_control && self.control {
            out.push(Action::Release(KbdKey::Control));
            changed = true;
        }
        self.shift = want_shift;
        self.control = want_control;
        assert(out@ == start + transitions_spec(old(self).shift, old(self).control, desired));
        changed
    }
}

/// Setting the same modifier twice in a row transitions at most on the
/// first call: the first call transitions exactly when the state differs
/// from the desired one, and the second finds it already in place.
pub proof fn lemma_set_idempotent(c: ModifierCoalescer, desired: Option<KbdKey>)
    ensures
        (transitions_spec(c.shift, c.control, desired).len() > 0) == (c != ModifierCoalescer::after_set(desired)),
        transitions_spec(
            ModifierCoalescer::after_set(desired).shift,
            ModifierCoalescer::after_set(desired).control,
            desired,
        ).len() == 0,
{
}

} // verus!
