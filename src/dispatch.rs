use vstd::prelude::*;
use crate::coalescer::ModifierCoalescer;
use crate::engine::{execute, plan_spec};
use crate::keys::{Action, Event};
use crate::mappings::{find_spec, NoteMappings};
use crate::midi::{parse_spec, MidiEvent, MidiMessage};

verus! {

/// What handling one incoming message comes to.
#[derive(Debug)]
pub enum Dispatch {
    /// Not a note message.
    Ignored,
    /// A note message that no mapping answers.
    Unmapped { note: u8, channel: u8 },
    /// The actions to perform, in order.
    Play(Vec<Action>),
}

/// The table and the held modifiers, shared by every connection.
pub struct AppState {
    pub mappings: NoteMappings,
    pub modifiers: ModifierCoalescer,
}

/// The sequence a message plays under `mappings`, if any.
pub open spec fn sequence_for(mappings: NoteMappings, msg: MidiMessage) -> Option<Seq<Event>> {
    match find_spec(mappings@, msg.note, msg.channel) {
        Some(m) => Some(if msg.event == MidiEvent::NoteOn { m.on@ } else { m.off@ }),
        None => None,
    }
}

impl AppState {
    pub fn new(mappings: NoteMappings) -> (r: AppState)
        ensures
            r.mappings@ == mappings@,
            !r.modifiers.shift && !r.modifiers.control,
    {
        AppState { mappings, modifiers: ModifierCoalescer::new() }
    }

    /// Handles one raw message: parses it, looks up its mapping and runs the
    /// note-on or note-off sequence against the held modifiers.
    pub fn midi_callback(&mut self, raw: &[u8]) -> (r: Dispatch)
        ensures
            final(self).mappings@ == old(self).mappings@,
            match parse_spec(raw@) {
                None => r is Ignored && final(self).modifiers == old(self).modifiers,
                Some(msg) => match sequence_for(old(self).mappings, msg) {
                    None => r == (Dispatch::Unmapped { note: msg.note, channel: msg.channel })
                        && final(self).modifiers == old(self).modifiers,
                    Some(s) => match r {
                        Dispatch::Play(actions) => actions@ == plan_spec(s, old(self).modifiers).0
                            && final(self).modifiers == plan_spec(s, old(self).modifiers).1,
                        _ => false,
                    },
                },
            },
    {
        match MidiMessage::new(raw) {
            None => Dispatch::Ignored,
            Some(msg) => match self.mappings.find(msg.note, msg.channel) {
                None => Dispatch::Unmapped { note: msg.note, channel: msg.channel },
                Some(m) => {
                    let seq = match msg.event {
                        MidiEvent::NoteOn => &m.on,
                        MidiEvent::NoteOff => &m.off,
                    };
                    Dispatch::Play(execute(seq, &mut self.modifiers))
                },
            },
        }
    }
}

} // verus!
