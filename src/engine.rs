use vstd::prelude::*;
use crate::coalescer::{transitions_spec, ModifierCoalescer};
use crate::keys::{Action, Event, KbdKey};

verus! {

/// Pause after a modifier change, so that the change registers before the
/// next key.
pub const OCTAVE_DELAY_MS: u64 = 10;

/// The coalescer state after `key` was pressed (`down`) or released directly.
pub open spec fn noted(c: ModifierCoalescer, key: KbdKey, down: bool) -> ModifierCoalescer {
    ModifierCoalescer {
        shift: if key == KbdKey::Shift { down } else { c.shift },
        control: if key == KbdKey::Control { down } else { c.control },
    }
}

/// The actions of one event, and the coalescer state after it.
pub open spec fn step_spec(e: Event, c: ModifierCoalescer) -> (Seq<Action>, ModifierCoalescer) {
    match e {
        Event::Delay(d) => (seq![Action::Sleep(d)], c),
        Event::KeyDown(k) => (seq![Action::Press(k)], noted(c, k, true)),
        Event::KeyUp(k) => (seq![Action::Release(k)], noted(c, k, false)),
        Event::NoteMod(m) => {
            let t = transitions_spec(c.shift, c.control, m);
            (
                if t.len() > 0 { t.push(Action::Sleep(OCTAVE_DELAY_MS)) } else { t },
                ModifierCoalescer::after_set(m),
            )
        },
    }
}

/// The actions of a whole sequence, in order, and the final coalescer state.
pub open spec fn plan_spec(s: Seq<Event>, c: ModifierCoalescer) -> (Seq<Action>, ModifierCoalescer)
    decreases s.len(),
{
    if s.len() == 0 {
        (seq![], c)
    } else {
        let (a, c1) = plan_spec(s.drop_last(), c);
        let (b, c2) = step_spec(s.last(), c1);
        (a + b, c2)
    }
}

/// Runs `events` in order against the coalescer and returns the key
/// transitions and pauses to perform, in the order they must happen.
pub fn execute(events: &Vec<Event>, modifiers: &mut ModifierCoalescer) -> (r: Vec<Action>)
    ensures
        r@ == plan_spec(events@, *old(modifiers)).0,
        *final(modifiers) == plan_spec(events@, *old(modifiers)).1,
{
    let mut out: Vec<Action> = Vec::new();
    let mut i: usize = 0;
    while i < events.len()
        invariant
            i <= events@.len(),
            out@ == plan_spec(events@.take(i as int), *old(modifiers)).0,
            *modifiers == plan_spec(events@.take(i as int), *old(modifiers)).1,
        decreases events@.len() - i,
    {
        let ghost before = out@;
        let ghost c = *modifiers;
        let e = events[i];
        match e {
            Event::Delay(d) => {
                out.push(Action::Sleep(d));
            },
            Event::KeyDown(k) => {
                out.push(Action::Press(k));
                modifiers.note_key(k, true);
            },
            Event::KeyUp(k) => {
                out.push(Action::Release(k));
                modifiers.note_key(k, false);
            },
            Event::NoteMod(m) => {
                let changed = modifiers.set(m, &mut out);
                if changed {
                    out.push(Action::Sleep(OCTAVE_DELAY_MS));
                }
            },
        }
        proof {
            let p = events@.take(i as int + 1);
            assert(p.drop_last() =~= events@.take(i as int));
            assert(p.last() == e);
            assert(out@ =~= before + step_spec(e, c).0);
        }
        i = i + 1;
    }
    assert(events@.take(events@.len() as int) =~= events@);
    out
}

/// Total pause requested by a sequence of events.
pub open spec fn total_delay(s: Seq<Event>) -> int
    decreases s.len(),
{
    if s.len() == 0 {
        0
    } else {
        total_delay(s.drop_last()) + match s.last() {
            Event::Delay(d) => d as int,
            _ => 0,
        }
    }
}

/// Total pause in a sequence of actions.
pub open spec fn total_sleep(a: Seq<Action>) -> int
    decreases a.len(),
{
    if a.len() == 0 {
        0
    } else {
        total_sleep(a.drop_last()) + match a.last() {
            Action::Sleep(d) => d as int,
            _ => 0,
        }
    }
}

/// The key transitions of a sequence of actions, pauses left out.
pub open spec fn key_actions(a: Seq<Action>) -> Seq<Action>
    decreases a.len(),
{
    if a.len() == 0 {
        seq![]
    } else {
        match a.last() {
            Action::Sleep(_) => key_actions(a.drop_last()),
            _ => key_actions(a.drop_last()).push(a.last()),
        }
    }
}

/// The key events of a sequence, as actions, in declared order.
pub open spec fn declared_keys(s: Seq<Event>) -> Seq<Action>
    decreases s.len(),
{
    if s.len() == 0 {
        seq![]
    } else {
        match s.last() {
            Event::KeyDown(k) => declared_keys(s.drop_last()).push(Action::Press(k)),
            Event::KeyUp(k) => declared_keys(s.drop_last()).push(Action::Release(k)),
            _ => declared_keys(s.drop_last()),
        }
    }
}

pub proof fn lemma_total_sleep_add(a: Seq<Action>, b: Seq<Action>)
    ensures
        total_sleep(a + b) == total_sleep(a) + total_sleep(b),
    decreases b.len(),
{
    if b.len() > 0 {
        assert((a + b).drop_last() =~= a + b.drop_last());
        lemma_total_sleep_add(a, b.drop_last());
    } else {
        assert(a + b =~= a);
    }
}

pub proof fn lemma_key_actions_add(a: Seq<Action>, b: Seq<Action>)
    ensures
        key_actions(a + b) == key_actions(a) + key_actions(b),
    decreases b.len(),
{
    if b.len() > 0 {
        assert((a + b).drop_last() =~= a + b.drop_last());
        lemma_key_actions_add(a, b.drop_last());
        assert(key_actions(a) + key_actions(b.drop_last()).push(b.last())
            =~= (key_actions(a) + key_actions(b.drop_last())).push(b.last()));
    } else {
        assert(a + b =~= a);
        assert(key_actions(a) + key_actions(b) =~= key_actions(a));
    }
}

/// Running a sequence pauses at least as long as the sum of its delays,
/// whatever the modifiers held at the start.
pub proof fn lemma_execute_waits(s: Seq<Event>, c: ModifierCoalescer)
    ensures
        total_sleep(plan_spec(s, c).0) >= total_delay(s),
    decreases s.len(),
{
    if s.len() > 0 {
        let (a, c1) = plan_spec(s.drop_last(), c);
        let (b, c2) = step_spec(s.last(), c1);
        lemma_execute_waits(s.drop_last(), c);
        lemma_total_sleep_add(a, b);
        assert(total_sleep(Seq::<Action>::empty()) == 0);
        match s.last() {
            Event::Delay(d) => {
                assert(b.drop_last() =~= Seq::<Action>::empty());
                assert(total_sleep(b) == d as int);
            },
            Event::KeyDown(k) => {
                assert(b.drop_last() =~= Seq::<Action>::empty());
                assert(total_sleep(b) == 0);
            },
            Event::KeyUp(k) => {
                assert(b.drop_last() =~= Seq::<Action>::empty());
                assert(total_sleep(b) == 0);
            },
            Event::NoteMod(m) => {
                lemma_transitions_no_sleep(c1, m);
                if b.len() > 0 && b.last() is Sleep {
                    assert(b.drop_last() =~= transitions_spec(c1.shift, c1.control, m));
                }
                assert(total_sleep(b) >= 0);
            },
        }
        assert(total_delay(s) == total_delay(s.drop_last()) + match s.last() {
            Event::Delay(d) => d as int,
            _ => 0,
        });
    }
}

proof fn lemma_transitions_no_sleep(c: ModifierCoalescer, m: Option<KbdKey>)
    ensures
        total_sleep(transitions_spec(c.shift, c.control, m)) == 0,
        key_actions(transitions_spec(c.shift, c.control, m)) == transitions_spec(c.shift, c.control, m),
{
    let t = transitions_spec(c.shift, c.control, m);
    reveal_with_fuel(total_sleep, 3);
    reveal_with_fuel(key_actions, 3);
    if t.len() == 2 {
        assert(t.drop_last().drop_last() =~= Seq::<Action>::empty());
        assert(t.drop_last() =~= seq![t[0]]);
    } else if t.len() == 1 {
        assert(t.drop_last() =~= Seq::<Action>::empty());
    }
    assert(key_actions(t) =~= t);
}

/// In a sequence that changes no modifier by itself, the key transitions
/// performed are exactly the declared key events, in declared order.
pub proof fn lemma_execute_keeps_order(s: Seq<Event>, c: ModifierCoalescer)
    requires
        forall|i: int| 0 <= i < s.len() ==> !(#[trigger] s[i] is NoteMod),
    ensures
        key_actions(plan_spec(s, c).0) == declared_keys(s),
    decreases s.len(),
{
    if s.len() > 0 {
        let (a, c1) = plan_spec(s.drop_last(), c);
        let (b, c2) = step_spec(s.last(), c1);
        assert forall|i: int| 0 <= i < s.drop_last().len() implies !(#[trigger] s.drop_last()[i] is NoteMod) by {
            assert(s.drop_last()[i] == s[i]);
        }
        lemma_execute_keeps_order(s.drop_last(), c);
        lemma_key_actions_add(a, b);
        assert(!(s[s.len() - 1] is NoteMod));
        reveal_with_fuel(key_actions, 2);
        match s.last() {
            Event::Delay(d) => {
                assert(seq![Action::Sleep(d)].drop_last() =~= Seq::<Action>::empty());
            },
            Event::KeyDown(k) => {
                assert(seq![Action::Press(k)].drop_last() =~= Seq::<Action>::empty());
                assert(key_actions(b) =~= seq![Action::Press(k)]);
            },
            Event::KeyUp(k) => {
                assert(seq![Action::Release(k)].drop_last() =~= Seq::<Action>::empty());
                assert(key_actions(b) =~= seq![Action::Release(k)]);
            },
            Event::NoteMod(m) => {},
        }
    }
}

} // verus!
