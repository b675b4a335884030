use vstd::prelude::*;
use crate::keys::{Event, KbdKey};
use crate::mappings::{NoteMapping, NoteMappings};

verus! {

/// How long a keyboard modifier needs to stick, in milliseconds.
pub const MOD_DELAY_MS: u64 = 150;

/// How long a key press needs to stick, in milliseconds.
pub const KEY_DELAY_MS: u64 = 40;

/// How long system events, such as Escape, need, in milliseconds.
pub const SYS_DELAY_MS: u64 = 400;

/// The note index of C1, where the built-in layout starts.
pub const C1_NOTE: u8 = 24;

/// The character keys of the built-in layout, one per semitone from C1.
pub open spec fn layout_keys() -> Seq<char> {
    seq![
        't', 'h', 'x', 'g', 'j', 'e', 'z', 'p', 'k', 'f', 'y', 'm', 'd', 'w', 'a', 'u', 'o', 'r',
        'n', 'e', 'c', 't', 'l', 'i', 's', 'g', 'h', 'v', 'b', 'd', 'q', 'a', 'm', 'e', 'u', 'o',
        'r', ' ', '1', '2', '3', '4', '5', '6', '7', '8', '9', '0',
    ]
}

/// The character keys bound to the pad buttons, from note 40 on channel 9.
pub open spec fn pad_keys() -> Seq<char> {
    seq!['z', 'x', 'c', 'v', 'b', 'n', 'm', ',']
}

/// The sequence of a pad button: clear modifiers and dialogs with Escape,
/// then type the key while Control, Alt and Shift are held.
pub open spec fn pad_spec(c: char) -> Seq<Event> {
    seq![
        Event::NoteMod(None),
        Event::KeyDown(KbdKey::Escape),
        Event::Delay(KEY_DELAY_MS),
        Event::KeyUp(KbdKey::Escape),
        Event::Delay(SYS_DELAY_MS),
        Event::KeyDown(KbdKey::Control),
        Event::KeyDown(KbdKey::Alt),
        Event::KeyDown(KbdKey::Shift),
        Event::Delay(MOD_DELAY_MS),
        Event::KeyDown(KbdKey::Layout(c)),
        Event::Delay(KEY_DELAY_MS),
        Event::KeyUp(KbdKey::Layout(c)),
        Event::Delay(MOD_DELAY_MS),
        Event::KeyUp(KbdKey::Shift),
        Event::KeyUp(KbdKey::Alt),
        Event::KeyUp(KbdKey::Control),
    ]
}

/// `m` triggers on `note` and `channel` only, with the given sequences.
pub open spec fn entry_is(m: NoteMapping, note: int, channel: int, on: Seq<Event>, off: Seq<Event>) -> bool {
    &&& m.note == note
    &&& m.channel == channel
    &&& !m.any_channel
    &&& m.on@ == on
    &&& m.off@ == off
}

/// The low-register entry of layout key `k`: typed with Control held.
pub open spec fn low_entry(m: NoteMapping, k: int) -> bool {
    entry_is(
        m,
        C1_NOTE + k,
        0,
        NoteMapping::down_spec(layout_keys()[k], Some(KbdKey::Control), Some(MOD_DELAY_MS)),
        NoteMapping::up_spec(layout_keys()[k]),
    )
}

/// The middle-register entry of layout key `k`, an octave up: typed with
/// no modifier.
pub open spec fn mid_entry(m: NoteMapping, k: int) -> bool {
    entry_is(
        m,
        C1_NOTE + 12 + k,
        0,
        NoteMapping::down_spec(layout_keys()[k], None, None),
        NoteMapping::up_spec(layout_keys()[k]),
    )
}

/// The entry of pad `p`.
pub open spec fn pad_entry(m: NoteMapping, p: int) -> bool {
    entry_is(m, 40 + p, 9, pad_spec(pad_keys()[p]), seq![])
}

/// Appends the built-in table: for each layout key, its low-register
/// entry and then its middle-register entry; then one entry per pad.
pub fn generate_old_mappings(mappings: &mut NoteMappings)
    ensures
        final(mappings)@.len() == old(mappings)@.len() + 104,
        forall|j: int| 0 <= j < old(mappings)@.len() ==> final(mappings)@[j] == old(mappings)@[j],
        forall|k: int| 0 <= k < 48 ==> low_entry(#[trigger] final(mappings)@[old(mappings)@.len() + 2 * k], k),
        forall|k: int| 0 <= k < 48 ==> mid_entry(#[trigger] final(mappings)@[old(mappings)@.len() + 2 * k + 1], k),
        forall|p: int| 0 <= p < 8 ==> pad_entry(#[trigger] final(mappings)@[old(mappings)@.len() + 96 + p], p),
{
    let keys: Vec<char> = vec![
        't', 'h', 'x', 'g', 'j', 'e', 'z', 'p', 'k', 'f', 'y', 'm', 'd', 'w', 'a', 'u', 'o', 'r',
        'n', 'e', 'c', 't', 'l', 'i', 's', 'g', 'h', 'v', 'b', 'd', 'q', 'a', 'm', 'e', 'u', 'o',
        'r', ' ', '1', '2', '3', '4', '5', '6', '7', '8', '9', '0',
    ];
    assert(keys@ =~= layout_keys());
    let ghost start = mappings@;
    let mut k: usize = 0;
    while k < keys.len()
        invariant
            keys@ == layout_keys(),
            k <= 48,
            mappings@.len() == start.len() + 2 * k,
            forall|j: int| 0 <= j < start.len() ==> mappings@[j] == start[j],
            forall|i: int| 0 <= i < k ==> low_entry(#[trigger] mappings@[start.len() + 2 * i], i),
            forall|i: int| 0 <= i < k ==> mid_entry(#[trigger] mappings@[start.len() + 2 * i + 1], i),
        decreases 48 - k,
    {
        let key = keys[k];
        let mut lo = NoteMapping::new(k as u8 + C1_NOTE, 0);
        let mut mid = NoteMapping::new(k as u8 + C1_NOTE + 12, 0);
        lo.on = NoteMapping::down_event(key, Some(KbdKey::Control), Some(MOD_DELAY_MS));
        lo.off = NoteMapping::up_event(key);
        mid.on = NoteMapping::down_event(key, None, None);
        mid.off = NoteMapping::up_event(key);
        mappings.add(lo);
        mappings.add(mid);
        k = k + 1;
    }
    let pads: Vec<char> = vec!['z', 'x', 'c', 'v', 'b', 'n', 'm', ','];
    assert(pads@ =~= pad_keys());
    let mut p: usize = 0;
    while p < pads.len()
        invariant
            pads@ == pad_keys(),
            p <= 8,
            mappings@.len() == start.len() + 96 + p,
            forall|j: int| 0 <= j < start.len() ==> mappings@[j] == start[j],
            forall|i: int| 0 <= i < 48 ==> low_entry(#[trigger] mappings@[start.len() + 2 * i], i),
            forall|i: int| 0 <= i < 48 ==> mid_entry(#[trigger] mappings@[start.len() + 2 * i + 1], i),
            forall|i: int| 0 <= i < p ==> pad_entry(#[trigger] mappings@[start.len() + 96 + i], i),
        decreases 8 - p,
    {
        let pad = pads[p];
        let seq: Vec<Event> = vec![
            Event::NoteMod(None),
            Event::KeyDown(KbdKey::Escape),
            Event::Delay(KEY_DELAY_MS),
            Event::KeyUp(KbdKey::Escape),
            Event::Delay(SYS_DELAY_MS),
            Event::KeyDown(KbdKey::Control),
            Event::KeyDown(KbdKey::Alt),
            Event::KeyDown(KbdKey::Shift),
            Event::Delay(MOD_DELAY_MS),
            Event::KeyDown(KbdKey::Layout(pad)),
            Event::Delay(KEY_DELAY_MS),
            Event::KeyUp(KbdKey::Layout(pad)),
            Event::Delay(MOD_DELAY_MS),
            Event::KeyUp(KbdKey::Shift),
            Event::KeyUp(KbdKey::Alt),
            Event::KeyUp(KbdKey::Control),
        ];
        assert(seq@ =~= pad_spec(pad));
        let mut pad_mapping = NoteMapping::new(p as u8 + 40, 9);
        pad_mapping.on = seq;
        mappings.add(pad_mapping);
        p = p + 1;
    }
}

} // verus!
