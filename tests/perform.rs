use midi_perform::coalescer::ModifierCoalescer;
use midi_perform::defaults::{generate_old_mappings, MOD_DELAY_MS};
use midi_perform::devices::Registry;
use midi_perform::dispatch::{AppState, Dispatch};
use midi_perform::engine::{execute, OCTAVE_DELAY_MS};
use midi_perform::import::{parse_key, parse_number, split_fields, split_lines, ImportError};
use midi_perform::keys::{Action, Event, KbdKey};
use midi_perform::mappings::{NoteMapping, NoteMappings};
use midi_perform::midi::{MidiEvent, MidiMessage};

fn mapping(note: u8, channel: u8, key: char) -> NoteMapping {
    let mut m = NoteMapping::new(note, channel);
    m.on = vec![Event::KeyDown(KbdKey::Layout(key))];
    m.off = vec![Event::KeyUp(KbdKey::Layout(key))];
    m
}

fn names(list: &[&str]) -> Vec<Vec<u8>> {
    list.iter().map(|s| s.as_bytes().to_vec()).collect()
}

#[test]
fn find_returns_added_mapping() {
    let mut t = NoteMappings::new();
    t.add(mapping(60, 0, 'a'));
    t.add(mapping(61, 2, 'b'));
    let m = t.find(61, 2).expect("mapped");
    assert_eq!(m.note, 61);
    assert_eq!(m.channel, 2);
    assert_eq!(m.on, vec![Event::KeyDown(KbdKey::Layout('b'))]);
    assert!(t.find(60, 0).is_some());
}

#[test]
fn find_unmapped_is_none() {
    let mut t = NoteMappings::new();
    t.add(mapping(60, 0, 'a'));
    assert!(t.find(60, 1).is_none());
    assert!(t.find(59, 0).is_none());
    assert!(NoteMappings::new().find(0, 0).is_none());
}

#[test]
fn find_prefers_earlier_entry() {
    let mut t = NoteMappings::new();
    t.add(mapping(60, 0, 'a'));
    t.add(mapping(60, 0, 'b'));
    assert_eq!(t.find(60, 0).unwrap().on, vec![Event::KeyDown(KbdKey::Layout('a'))]);
    assert_eq!(t.len(), 2);
}

#[test]
fn find_any_channel_entry() {
    let mut t = NoteMappings::new();
    let mut wild = mapping(70, 0, 'w');
    wild.any_channel = true;
    t.add(wild);
    t.add(mapping(70, 5, 'x'));
    assert_eq!(t.find(70, 5).unwrap().on, vec![Event::KeyDown(KbdKey::Layout('w'))]);
    assert!(t.find(71, 5).is_none());
}

#[test]
fn coalescer_set_twice_transitions_once() {
    let mut c = ModifierCoalescer::new();
    let mut out = Vec::new();
    assert!(c.set(Some(KbdKey::Control), &mut out));
    assert!(!c.set(Some(KbdKey::Control), &mut out));
    assert_eq!(out, vec![Action::Press(KbdKey::Control)]);
    assert!(c.control && !c.shift);
}

#[test]
fn coalescer_switches_and_clears() {
    let mut c = ModifierCoalescer::new();
    let mut out = Vec::new();
    c.set(Some(KbdKey::Shift), &mut out);
    assert!(c.set(Some(KbdKey::Control), &mut out));
    assert!(c.set(None, &mut out));
    assert!(!c.set(None, &mut out));
    assert_eq!(
        out,
        vec![
            Action::Press(KbdKey::Shift),
            Action::Release(KbdKey::Shift),
            Action::Press(KbdKey::Control),
            Action::Release(KbdKey::Control),
        ]
    );
}

#[test]
fn coalescer_untracked_modifier_releases_held() {
    let mut c = ModifierCoalescer::new();
    let mut out = Vec::new();
    c.set(Some(KbdKey::Shift), &mut out);
    assert!(c.set(Some(KbdKey::Alt), &mut out));
    assert_eq!(out, vec![Action::Press(KbdKey::Shift), Action::Release(KbdKey::Shift)]);
}

#[test]
fn execute_keeps_order_and_delays() {
    let seq = vec![
        Event::Delay(5),
        Event::KeyDown(KbdKey::Layout('a')),
        Event::Delay(7),
        Event::KeyUp(KbdKey::Layout('a')),
        Event::KeyDown(KbdKey::Escape),
    ];
    let mut c = ModifierCoalescer::new();
    let actions = execute(&seq, &mut c);
    assert_eq!(
        actions,
        vec![
            Action::Sleep(5),
            Action::Press(KbdKey::Layout('a')),
            Action::Sleep(7),
            Action::Release(KbdKey::Layout('a')),
            Action::Press(KbdKey::Escape),
        ]
    );
    let slept: u64 = actions.iter().map(|a| if let Action::Sleep(d) = a { *d } else { 0 }).sum();
    assert!(slept >= 12);
}

#[test]
fn execute_settles_after_modifier_change_only() {
    let seq = vec![Event::NoteMod(Some(KbdKey::Shift)), Event::KeyDown(KbdKey::Layout('q'))];
    let mut c = ModifierCoalescer::new();
    let first = execute(&seq, &mut c);
    assert_eq!(
        first,
        vec![
            Action::Press(KbdKey::Shift),
            Action::Sleep(OCTAVE_DELAY_MS),
            Action::Press(KbdKey::Layout('q')),
        ]
    );
    let second = execute(&seq, &mut c);
    assert_eq!(second, vec![Action::Press(KbdKey::Layout('q'))]);
}

#[test]
fn execute_direct_modifier_keys_update_state() {
    let seq = vec![Event::KeyDown(KbdKey::Control)];
    let mut c = ModifierCoalescer::new();
    execute(&seq, &mut c);
    assert!(c.control);
    let clear = vec![Event::NoteMod(None)];
    let actions = execute(&clear, &mut c);
    assert_eq!(actions, vec![Action::Release(KbdKey::Control), Action::Sleep(OCTAVE_DELAY_MS)]);
}

#[test]
fn hot_plug_two_polls() {
    let mut r = Registry::new();
    let seen1 = names(&["A", "B"]);
    let open1 = r.to_connect(&seen1, None);
    assert_eq!(open1, names(&["A", "B"]));
    let dropped1 = r.finish_poll(&seen1, &open1);
    assert!(dropped1.is_empty());
    let seen2 = names(&["B", "C"]);
    let open2 = r.to_connect(&seen2, None);
    assert_eq!(open2, names(&["C"]));
    let dropped2 = r.finish_poll(&seen2, &open2);
    assert_eq!(dropped2, names(&["A"]));
    assert!(!r.is_connected(&b"A".to_vec()));
    assert!(r.is_connected(&b"B".to_vec()));
    assert!(r.is_connected(&b"C".to_vec()));
}

#[test]
fn hot_plug_filter_and_failed_connect() {
    let mut r = Registry::new();
    let seen = names(&["A", "B", "B"]);
    let want = b"B".to_vec();
    let open = r.to_connect(&seen, Some(&want));
    assert_eq!(open, names(&["B"]));
    let dropped = r.finish_poll(&seen, &Vec::new());
    assert!(dropped.is_empty());
    assert!(!r.is_connected(&want));
    assert_eq!(r.to_connect(&seen, Some(&want)), names(&["B"]));
}

#[test]
fn import_well_formed_file() {
    let mut t = NoteMappings::new();
    t.add(mapping(1, 1, 'z'));
    let data = b"60 0 a b\n\n  61 1\tshift esc\r\n127 15 space ctrl\n";
    assert_eq!(t.import(data), Ok(()));
    assert_eq!(t.len(), 3);
    let m = t.find(61, 1).unwrap();
    assert_eq!(m.on, vec![Event::KeyDown(KbdKey::Shift)]);
    assert_eq!(m.off, vec![Event::KeyUp(KbdKey::Escape)]);
    assert_eq!(t.find(127, 15).unwrap().on, vec![Event::KeyDown(KbdKey::Layout(' '))]);
    assert_eq!(t.find(60, 0).unwrap().off, vec![Event::KeyUp(KbdKey::Layout('b'))]);
    assert!(t.find(1, 1).is_none());
    assert!(t.find(60, 1).is_none());
    assert!(t.find(62, 0).is_none());
}

#[test]
fn import_errors_leave_table() {
    let mut t = NoteMappings::new();
    t.add(mapping(1, 1, 'z'));
    assert_eq!(t.import(b"60 0 a\n"), Err(ImportError { line: 0 }));
    assert_eq!(t.import(b"60 0 a b\n60 0 a nokey\n"), Err(ImportError { line: 1 }));
    assert_eq!(t.import(b"128 0 a b"), Err(ImportError { line: 0 }));
    assert_eq!(t.import(b"\n1 16 a b"), Err(ImportError { line: 1 }));
    assert_eq!(t.import(b"x 0 a b"), Err(ImportError { line: 0 }));
    assert_eq!(t.len(), 1);
    assert!(t.find(1, 1).is_some());
}

#[test]
fn import_empty_file_empties_table() {
    let mut t = NoteMappings::new();
    t.add(mapping(1, 1, 'z'));
    assert_eq!(t.import(b""), Ok(()));
    assert_eq!(t.len(), 0);
}

#[test]
fn parse_pieces() {
    assert_eq!(parse_number(&b"007".to_vec(), 127), Some(7));
    assert_eq!(parse_number(&b"127".to_vec(), 127), Some(127));
    assert_eq!(parse_number(&b"1000".to_vec(), 127), None);
    assert_eq!(parse_number(&b"".to_vec(), 127), None);
    assert_eq!(parse_key(&b"alt".to_vec()), Some(KbdKey::Alt));
    assert_eq!(parse_key(&b"Q".to_vec()), Some(KbdKey::Layout('Q')));
    assert_eq!(parse_key(&b"ab".to_vec()), None);
    assert_eq!(split_lines(b"a\nb"), names(&["a", "b"]));
    assert_eq!(split_fields(&b" x  yz ".to_vec()), names(&["x", "yz"]));
}

#[test]
fn midi_message_parsing() {
    let on = MidiMessage::new(&[0x93, 60, 100]).unwrap();
    assert_eq!(on.event, MidiEvent::NoteOn);
    assert_eq!((on.note, on.channel, on.velocity), (60, 3, 100));
    assert_eq!(MidiMessage::new(&[0x90, 60, 0]).unwrap().event, MidiEvent::NoteOff);
    assert_eq!(MidiMessage::new(&[0x81, 60, 10]).unwrap().event, MidiEvent::NoteOff);
    assert!(MidiMessage::new(&[0xB0, 7, 100]).is_none());
    assert!(MidiMessage::new(&[0x90, 60]).is_none());
}

#[test]
fn default_table_layout() {
    let mut t = NoteMappings::new();
    generate_old_mappings(&mut t);
    assert_eq!(t.len(), 104);
    let lo = t.find(24, 0).unwrap();
    assert_eq!(
        lo.on,
        vec![
            Event::NoteMod(Some(KbdKey::Control)),
            Event::Delay(MOD_DELAY_MS),
            Event::KeyDown(KbdKey::Layout('t')),
        ]
    );
    let mid = t.find(36, 0).unwrap();
    assert_eq!(mid.on, vec![Event::NoteMod(None), Event::KeyDown(KbdKey::Layout('t'))]);
    let pad = t.find(47, 9).unwrap();
    assert_eq!(pad.on.len(), 16);
    assert_eq!(pad.on[9], Event::KeyDown(KbdKey::Layout(',')));
    assert!(pad.off.is_empty());
    assert!(t.find(24, 1).is_none());
}

#[test]
fn end_to_end_first_low_note() {
    let mut t = NoteMappings::new();
    generate_old_mappings(&mut t);
    let mut state = AppState::new(t);
    match state.midi_callback(&[0x90, 24, 100]) {
        Dispatch::Play(actions) => assert_eq!(
            actions,
            vec![
                Action::Press(KbdKey::Control),
                Action::Sleep(OCTAVE_DELAY_MS),
                Action::Sleep(MOD_DELAY_MS),
                Action::Press(KbdKey::Layout('t')),
            ]
        ),
        other => panic!("unexpected {:?}", other),
    }
    match state.midi_callback(&[0x80, 24, 0]) {
        Dispatch::Play(actions) => assert_eq!(actions, vec![Action::Release(KbdKey::Layout('t'))]),
        other => panic!("unexpected {:?}", other),
    }
    assert!(state.modifiers.control);
}

#[test]
fn dispatch_unmapped_and_ignored() {
    let mut t = NoteMappings::new();
    generate_old_mappings(&mut t);
    let mut state = AppState::new(t);
    assert!(matches!(state.midi_callback(&[0x95, 24, 100]), Dispatch::Unmapped { note: 24, channel: 5 }));
    assert!(matches!(state.midi_callback(&[0xF8]), Dispatch::Ignored));
    assert!(!state.modifiers.control && !state.modifiers.shift);
}
