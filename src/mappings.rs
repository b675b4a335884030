use vstd::prelude::*;
use crate::keys::{Event, KbdKey};

verus! {

/// Binds a (note, channel) trigger to the sequences played on note-on and note-off.
#[derive(Clone, Debug)]
pub struct NoteMapping {
    pub note: u8,
    pub channel: u8,
    /// When set, the mapping answers on every channel.
    pub any_channel: bool,
    pub on: Vec<Event>,
    pub off: Vec<Event>,
}

/// Whether mapping `m` answers to `note` on `channel`.
pub open spec fn answers(m: NoteMapping, note: u8, channel: u8) -> bool {
    m.note == note && (m.any_channel || m.channel == channel)
}

/// `i` is the position of the first mapping of `s` that answers.
pub open spec fn is_first_match(s: Seq<NoteMapping>, note: u8, channel: u8, i: int) -> bool {
    &&& 0 <= i < s.len()
    &&& answers(s[i], note, channel)
    &&& forall|j: int| 0 <= j < i ==> !answers(#[trigger] s[j], note, channel)
}

/// What a lookup of (note, channel) in the table `s` yields: the first
/// mapping in insertion order that answers, if any.
pub open spec fn find_spec(s: Seq<NoteMapping>, note: u8, channel: u8) -> Option<NoteMapping> {
    if exists|i: int| is_first_match(s, note, channel, i) {
        Some(s[choose|i: int| is_first_match(s, note, channel, i)])
    } else {
        None
    }
}

/// At most one position is the first match.
pub proof fn lemma_first_match_unique(s: Seq<NoteMapping>, note: u8, channel: u8, i: int, k: int)
    requires
        is_first_match(s, note, channel, i),
        is_first_match(s, note, channel, k),
    ensures
        i == k,
{
    if i < k {
        assert(!answers(s[i], note, channel));
    } else if k < i {
        assert(!answers(s[k], note, channel));
    }
}

/// With a first match at `i`, the lookup yields the mapping at `i`.
pub proof fn lemma_find_at(s: Seq<NoteMapping>, note: u8, channel: u8, i: int)
    requires
        is_first_match(s, note, channel, i),
    ensures
        find_spec(s, note, channel) == Some(s[i]),
{
    let k = choose|k: int| is_first_match(s, note, channel, k);
    lemma_first_match_unique(s, note, channel, i, k);
}

/// With no answering mapping, the lookup yields nothing.
pub proof fn lemma_find_none(s: Seq<NoteMapping>, note: u8, channel: u8)
    requires
        forall|j: int| 0 <= j < s.len() ==> !answers(#[trigger] s[j], note, channel),
    ensures
        find_spec(s, note, channel) is None,
{
}

/// Some mapping answers exactly when the lookup yields one.
pub proof fn lemma_find_some(s: Seq<NoteMapping>, note: u8, channel: u8, i: int)
    requires
        0 <= i < s.len(),
        answers(s[i], note, channel),
    ensures
        find_spec(s, note, channel) is Some,
    decreases i,
{
    if exists|j: int| 0 <= j < i && answers(#[trigger] s[j], note, channel) {
        let j = choose|j: int| 0 <= j < i && answers(#[trigger] s[j], note, channel);
        lemma_find_some(s, note, channel, j);
    } else {
        lemma_find_at(s, note, channel, i);
    }
}

impl NoteMapping {
    /// A mapping of `note` on `channel` with empty sequences.
    pub fn new(note: u8, channel: u8) -> (r: NoteMapping)
        requires
            note < 128,
            channel < 16,
        ensures
            r.note == note,
            r.channel == channel,
            !r.any_channel,
            r.on@ == Seq::<Event>::empty(),
            r.off@ == Seq::<Event>::empty(),
    {
        NoteMapping { note, channel, any_channel: false, on: Vec::new(), off: Vec::new() }
    }

    /// The sequence that types `c`, first bringing the held modifier to
    /// `modifier` and optionally pausing for it to register.
    pub open spec fn down_spec(c: char, modifier: Option<KbdKey>, delay: Option<u64>) -> Seq<Event> {
        let pause: Seq<Event> = match delay {
            Some(d) => seq![Event::Delay(d)],
            None => seq![],
        };
        seq![Event::NoteMod(modifier)] + pause + seq![Event::KeyDown(KbdKey::Layout(c))]
    }

    /// The sequence that lets go of `c`; the held modifier stays, so that
    /// the next note in the same register needs no modifier change.
    pub open spec fn up_spec(c: char) -> Seq<Event> {
        seq![Event::KeyUp(KbdKey::Layout(c))]
    }

    pub fn down_event(c: char, modifier: Option<KbdKey>, delay: Option<u64>) -> (r: Vec<Event>)
        ensures
            r@ == Self::down_spec(c, modifier, delay),
    {
        let mut r: Vec<Event> = Vec::new();
        r.push(Event::NoteMod(modifier));
        match delay {
            Some(d) => r.push(Event::Delay(d)),
            None => {},
        }
        r.push(Event::KeyDown(KbdKey::Layout(c)));
        assert(r@ =~= Self::down_spec(c, modifier, delay));
        r
    }

    pub fn up_event(c: char) -> (r: Vec<Event>)
        ensures
            r@ == Self::up_spec(c),
    {
        let mut r: Vec<Event> = Vec::new();
        r.push(Event::KeyUp(KbdKey::Layout(c)));
        assert(r@ =~= Self::up_spec(c));
        r
    }
}

/// The ordered table of mappings.
#[derive(Clone, Debug)]
pub struct NoteMappings {
    pub maps: Vec<NoteMapping>,
}

impl View for NoteMappings {
    type V = Seq<NoteMapping>;

    open spec fn view(&self) -> Seq<NoteMapping> {
        self.maps@
    }
}

impl NoteMappings {
    pub fn new() -> (r: NoteMappings)
        ensures
            r@ == Seq::<NoteMapping>::empty(),
    {
        NoteMappings { maps: Vec::new() }
    }

    pub fn len(&self) -> (r: usize)
        ensures
            r == self@.len(),
    {
        self.maps.len()
    }

    /// Appends `m`; earlier mappings keep precedence in lookups.
    pub fn add(&mut self, m: NoteMapping)
        ensures
            final(self)@ == old(self)@.push(m),
    {
        self.maps.push(m);
    }

    /// The first mapping in insertion order that answers to `note` on `channel`.
    pub fn find(&self, note: u8, channel: u8) -> (r: Option<&NoteMapping>)
        ensures
            match r {
                Some(m) => find_spec(self@, note, channel) == Some(*m),
                None => find_spec(self@, note, channel) is None,
            },
    {
        let mut i: usize = 0;
        while i < self.maps.len()
            invariant
                i <= self.maps@.len(),
                forall|j: int| 0 <= j < i ==> !answers(#[trigger] self.maps@[j], note, channel),
            decreases self.maps@.len() - i,
        {
            let m = &self.maps[i];
            if m.note == note && (m.any_channel || m.channel == channel) {
                proof {
                    lemma_find_at(self@, note, channel, i as int);
                }
                return Some(m);
            }
            i = i + 1;
        }
        proof {
            lemma_find_none(self@, note, channel);
        }
        None
    }
}

/// A mapping appended to a table in which nothing answered to its own
/// (note, channel) is what a lookup of that pair finds; a pair to which no
/// mapping answers finds nothing.
pub proof fn lemma_find_added(t: Seq<NoteMapping>, m: NoteMapping, note: u8, channel: u8)
    requires
        forall|j: int| 0 <= j < t.len() ==> !answers(#[trigger] t[j], m.note, m.channel),
    ensures
        find_spec(t.push(m), m.note, m.channel) == Some(m),
        (forall|j: int| 0 <= j < t.len() + 1 ==> !answers(#[trigger] t.push(m)[j], note, channel))
            ==> find_spec(t.push(m), note, channel) is None,
{
    let s = t.push(m);
    assert forall|j: int| 0 <= j < t.len() implies !answers(#[trigger] s[j], m.note, m.channel) by {
        assert(s[j] == t[j]);
    }
    lemma_find_at(s, m.note, m.channel, t.len() as int);
}

} // verus!
