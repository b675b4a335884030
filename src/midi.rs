use vstd::prelude::*;

verus! {

/// The kind of a note message.
#[derive(Clone, Copy, Debug, PartialEq, Eq, Structural)]
pub enum MidiEvent {
    NoteOn,
    NoteOff,
}

/// A parsed note message.
#[derive(Clone, Copy, Debug, PartialEq, Eq, Structural)]
pub struct MidiMessage {
    pub event: MidiEvent,
    /// Note index, below 128.
    pub note: u8,
    /// Channel, below 16.
    pub channel: u8,
    pub velocity: u8,
}

/// The note message that `raw` holds, if it starts with one: a status byte
/// 0x8n (note-off) or 0x9n (note-on) on channel n, then two data bytes
/// below 128. A note-on of velocity 0 is a note-off.
pub open spec fn parse_spec(raw: Seq<u8>) -> Option<MidiMessage> {
    if raw.len() >= 3 && (raw[0] / 16 == 8 || raw[0] / 16 == 9) && raw[1] < 128 && raw[2] < 128 {
        Some(MidiMessage {
            event: if raw[0] / 16 == 9 && raw[2] > 0 { MidiEvent::NoteOn } else { MidiEvent::NoteOff },
            note: raw[1],
            channel: (raw[0] % 16) as u8,
            velocity: raw[2],
        })
    } else {
        None
    }
}

impl MidiMessage {
    /// Parses a note message; any other message gives `None`.
    pub fn new(raw: &[u8]) -> (r: Option<MidiMessage>)
        ensures
            r == parse_spec(raw@),
    {
        if raw.len() < 3 {
            return None;
        }
        let status = raw[0];
        let kind = status / 16;
        if (kind != 8 && kind != 9) || raw[1] >= 128 || raw[2] >= 128 {
            return None;
        }
        let event = if kind == 9 && raw[2] > 0 { MidiEvent::NoteOn } else { MidiEvent::NoteOff };
        Some(MidiMessage { event, note: raw[1], channel: status % 16, velocity: raw[2] })
    }
}

} // verus!
