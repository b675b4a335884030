use vstd::prelude::*;
use crate::keys::{Event, KbdKey};
use crate::mappings::{answers, find_spec, lemma_find_none, lemma_find_some, NoteMapping, NoteMappings};
use crate::bytes::bytes_eq;

verus! {

/// A mapping line as read: note, channel, key pressed on note-on, key
/// released on note-off.
pub type LineEntry = (u8, u8, KbdKey, KbdKey);

/// Splits `s` at each newline: the finished lines and the one in progress.
pub open spec fn line_split(s: Seq<u8>) -> (Seq<Seq<u8>>, Seq<u8>)
    decreases s.len(),
{
    if s.len() == 0 {
        (seq![], seq![])
    } else {
        let (ls, cur) = line_split(s.drop_last());
        if s.last() == 10 {
            (ls.push(cur), seq![])
        } else {
            (ls, cur.push(s.last()))
        }
    }
}

/// The lines of `s`; the text after the last newline is a line too.
pub open spec fn lines_of(s: Seq<u8>) -> Seq<Seq<u8>> {
    line_split(s).0.push(line_split(s).1)
}

pub open spec fn is_space(b: u8) -> bool {
    b == 32 || b == 9 || b == 13
}

/// Splits `s` at whitespace: the finished fields and the one in progress.
pub open spec fn field_split(s: Seq<u8>) -> (Seq<Seq<u8>>, Seq<u8>)
    decreases s.len(),
{
    if s.len() == 0 {
        (seq![], seq![])
    } else {
        let (fs, cur) = field_split(s.drop_last());
        if is_space(s.last()) {
            if cur.len() > 0 { (fs.push(cur), seq![]) } else { (fs, seq![]) }
        } else {
            (fs, cur.push(s.last()))
        }
    }
}

/// The whitespace-separated fields of a line.
pub open spec fn fields_of(s: Seq<u8>) -> Seq<Seq<u8>> {
    let (fs, cur) = field_split(s);
    if cur.len() > 0 { fs.push(cur) } else { fs }
}

pub open spec fn is_digit(b: u8) -> bool {
    48 <= b <= 57
}

/// The value of a string of decimal digits.
pub open spec fn decimal(s: Seq<u8>) -> nat
    decreases s.len(),
{
    if s.len() == 0 {
        0
    } else {
        decimal(s.drop_last()) * 10 + (s.last() - 48) as nat
    }
}

/// The number a field spells, if it is decimal digits worth at most `max`.
pub open spec fn number_spec(s: Seq<u8>, max: nat) -> Option<u8> {
    if s.len() > 0 && (forall|i: int| 0 <= i < s.len() ==> is_digit(#[trigger] s[i])) && decimal(s) <= max {
        Some(decimal(s) as u8)
    } else {
        None
    }
}

/// The key a field names: `shift`, `ctrl`, `alt`, `esc`, `space`, or a
/// single visible ASCII character.
pub open spec fn key_spec(s: Seq<u8>) -> Option<KbdKey> {
    if s == seq![115u8, 104, 105, 102, 116] {
        Some(KbdKey::Shift)
    } else if s == seq![99u8, 116, 114, 108] {
        Some(KbdKey::Control)
    } else if s == seq![97u8, 108, 116] {
        Some(KbdKey::Alt)
    } else if s == seq![101u8, 115, 99] {
        Some(KbdKey::Escape)
    } else if s == seq![115u8, 112, 97, 99, 101] {
        Some(KbdKey::Layout(' '))
    } else if s.len() == 1 && 33 <= s[0] <= 126 {
        Some(KbdKey::Layout(s[0] as char))
    } else {
        None
    }
}

/// The entry of a line with fields `f`, if they are well-formed.
pub open spec fn entry_spec(f: Seq<Seq<u8>>) -> Option<LineEntry> {
    if f.len() == 4 {
        match (number_spec(f[0], 127), number_spec(f[1], 15), key_spec(f[2]), key_spec(f[3])) {
            (Some(n), Some(c), Some(d), Some(u)) => Some((n, c, d, u)),
            _ => None,
        }
    } else {
        None
    }
}

/// The entries of `ls`, blank lines skipped, or the index of the first
/// malformed line.
pub open spec fn entries_spec(ls: Seq<Seq<u8>>) -> Result<Seq<LineEntry>, int>
    decreases ls.len(),
{
    if ls.len() == 0 {
        Ok(seq![])
    } else {
        match entries_spec(ls.drop_last()) {
            Err(i) => Err(i),
            Ok(es) => {
                let f = fields_of(ls.last());
                if f.len() == 0 {
                    Ok(es)
                } else {
                    match entry_spec(f) {
                        Some(e) => Ok(es.push(e)),
                        None => Err(ls.len() - 1),
                    }
                }
            },
        }
    }
}

/// What a mapping file holds: its entries, or the index of its first
/// malformed line.
pub open spec fn import_spec(data: Seq<u8>) -> Result<Seq<LineEntry>, int> {
    entries_spec(lines_of(data))
}

/// `m` is the mapping of entry `e`: its key pressed on note-on and the
/// other released on note-off.
pub open spec fn built_from(m: NoteMapping, e: LineEntry) -> bool {
    &&& m.note == e.0
    &&& m.channel == e.1
    &&& !m.any_channel
    &&& m.on@ == seq![Event::KeyDown(e.2)]
    &&& m.off@ == seq![Event::KeyUp(e.3)]
}

/// A malformed line of a mapping file.
#[derive(Clone, Copy, Debug, PartialEq, Eq, Structural)]
pub struct ImportError {
    /// Zero-based index of the line.
    pub line: usize,
}

/// The views of a sequence of byte vectors.
pub open spec fn views(v: Seq<Vec<u8>>) -> Seq<Seq<u8>> {
    v.map_values(|x: Vec<u8>| x@)
}

/// The lines of `data`.
pub fn split_lines(data: &[u8]) -> (r: Vec<Vec<u8>>)
    ensures
        views(r@) == lines_of(data@),
{
    let mut r: Vec<Vec<u8>> = Vec::new();
    let mut cur: Vec<u8> = Vec::new();
    let mut i: usize = 0;
    while i < data.len()
        invariant
            i <= data@.len(),
            views(r@) == line_split(data@.take(i as int)).0,
            cur@ == line_split(data@.take(i as int)).1,
        decreases data@.len() - i,
    {
        let b = data[i];
        let ghost r0 = r@;
        proof {
            assert(data@.take(i as int + 1).drop_last() =~= data@.take(i as int));
        }
        if b == 10 {
            let done = cur;
            cur = Vec::new();
            r.push(done);
            assert(views(r@) =~= views(r0).push(done@));
        } else {
            cur.push(b);
        }
        i = i + 1;
    }
    assert(data@.take(data@.len() as int) =~= data@);
    let ghost r0 = r@;
    r.push(cur);
    assert(views(r@) =~= views(r0).push(cur@));
    r
}

/// The whitespace-separated fields of `line`.
pub fn split_fields(line: &Vec<u8>) -> (r: Vec<Vec<u8>>)
    ensures
        views(r@) == fields_of(line@),
{
    let mut r: Vec<Vec<u8>> = Vec::new();
    let mut cur: Vec<u8> = Vec::new();
    let mut i: usize = 0;
    while i < line.len()
        invariant
            i <= line@.len(),
            views(r@) == field_split(line@.take(i as int)).0,
            cur@ == field_split(line@.take(i as int)).1,
        decreases line@.len() - i,
    {
        let b = line[i];
        let ghost r0 = r@;
        proof {
            assert(line@.take(i as int + 1).drop_last() =~= line@.take(i as int));
        }
        if b == 32 || b == 9 || b == 13 {
            if cur.len() > 0 {
                let done = cur;
                cur = Vec::new();
                r.push(done);
                assert(views(r@) =~= views(r0).push(done@));
            } else {
                cur = Vec::new();
            }
        } else {
            cur.push(b);
        }
        i = i + 1;
    }
    assert(line@.take(line@.len() as int) =~= line@);
    if cur.len() > 0 {
        let ghost r0 = r@;
        r.push(cur);
        assert(views(r@) =~= views(r0).push(cur@));
    }
    r
}

/// A prefix of a digit string is worth at most the whole.
proof fn lemma_decimal_prefix(s: Seq<u8>, k: int)
    requires
        0 <= k <= s.len(),
        forall|i: int| 0 <= i < s.len() ==> is_digit(#[trigger] s[i]),
    ensures
        decimal(s.take(k)) <= decimal(s),
    decreases s.len(),
{
    if k == s.len() {
        assert(s.take(k) =~= s);
    } else {
        let t = s.drop_last();
        assert forall|i: int| 0 <= i < t.len() implies is_digit(#[trigger] t[i]) by {
            assert(t[i] == s[i]);
        }
        lemma_decimal_prefix(t, k);
        assert(t.take(k) =~= s.take(k));
        assert(is_digit(s[s.len() - 1]));
    }
}

/// Reads a decimal field worth at most `max`.
pub fn parse_number(f: &Vec<u8>, max: u8) -> (r: Option<u8>)
    ensures
        r == number_spec(f@, max as nat),
{
    if f.len() == 0 {
        return None;
    }
    let mut v: u32 = 0;
    let mut i: usize = 0;
    while i < f.len()
        invariant
            0 < f@.len(),
            i <= f@.len(),
            v == decimal(f@.take(i as int)),
            v <= max,
            forall|j: int| 0 <= j < i ==> is_digit(#[trigger] f@[j]),
        decreases f@.len() - i,
    {
        let b = f[i];
        proof {
            assert(f@.take(i as int + 1).drop_last() =~= f@.take(i as int));
        }
        if b < 48 || b > 57 {
            assert(!is_digit(f@[i as int]));
            return None;
        }
        let nv: u32 = v * 10 + (b - 48) as u32;
        assert(nv == decimal(f@.take(i as int + 1)));
        if nv > max as u32 {
            proof {
                if forall|j: int| 0 <= j < f@.len() ==> is_digit(#[trigger] f@[j]) {
                    lemma_decimal_prefix(f@, i as int + 1);
                }
            }
            return None;
        }
        v = nv;
        i = i + 1;
    }
    assert(f@.take(f@.len() as int) =~= f@);
    Some(v as u8)
}

/// Whether `f` holds exactly the bytes of `w`.
fn is_word(f: &Vec<u8>, w: Vec<u8>) -> (r: bool)
    ensures
        r == (f@ == w@),
{
    bytes_eq(f, &w)
}

/// Reads a key name.
pub fn parse_key(f: &Vec<u8>) -> (r: Option<KbdKey>)
    ensures
        r == key_spec(f@),
{
    let shift: Vec<u8> = vec![115u8, 104, 105, 102, 116];
    let ctrl: Vec<u8> = vec![99u8, 116, 114, 108];
    let alt: Vec<u8> = vec![97u8, 108, 116];
    let esc: Vec<u8> = vec![101u8, 115, 99];
    let space: Vec<u8> = vec![115u8, 112, 97, 99, 101];
    assert(shift@ =~= seq![115u8, 104, 105, 102, 116]);
    assert(ctrl@ =~= seq![99u8, 116, 114, 108]);
    assert(alt@ =~= seq![97u8, 108, 116]);
    assert(esc@ =~= seq![101u8, 115, 99]);
    assert(space@ =~= seq![115u8, 112, 97, 99, 101]);
    if is_word(f, shift) {
        Some(KbdKey::Shift)
    } else if is_word(f, ctrl) {
        Some(KbdKey::Control)
    } else if is_word(f, alt) {
        Some(KbdKey::Alt)
    } else if is_word(f, esc) {
        Some(KbdKey::Escape)
    } else if is_word(f, space) {
        Some(KbdKey::Layout(' '))
    } else if f.len() == 1 && 33 <= f[0] && f[0] <= 126 {
        Some(KbdKey::Layout(f[0] as char))
    } else {
        None
    }
}

/// Reads the entry of a line split into `fields`.
pub fn parse_entry(fields: &Vec<Vec<u8>>) -> (r: Option<LineEntry>)
    ensures
        r == entry_spec(views(fields@)),
{
    if fields.len() != 4 {
        return None;
    }
    assert(views(fields@)[0] == fields@[0]@);
    assert(views(fields@)[1] == fields@[1]@);
    assert(views(fields@)[2] == fields@[2]@);
    assert(views(fields@)[3] == fields@[3]@);
    let n = parse_number(&fields[0], 127);
    let c = parse_number(&fields[1], 15);
    let d = parse_key(&fields[2]);
    let u = parse_key(&fields[3]);
    match (n, c, d, u) {
        (Some(n), Some(c), Some(d), Some(u)) => Some((n, c, d, u)),
        _ => None,
    }
}

/// A malformed line stays the first one however many lines follow.
proof fn lemma_entries_err(ls: Seq<Seq<u8>>, k: int, e: int)
    requires
        0 <= k <= ls.len(),
        entries_spec(ls.take(k)) == Err::<Seq<LineEntry>, int>(e),
    ensures
        entries_spec(ls) == Err::<Seq<LineEntry>, int>(e),
    decreases ls.len(),
{
    if k == ls.len() {
        assert(ls.take(k) =~= ls);
    } else {
        assert(ls.drop_last().take(k) =~= ls.take(k));
        lemma_entries_err(ls.drop_last(), k, e);
    }
}

impl NoteMappings {
    /// Replaces the table by the mappings of a file of lines
    /// `note channel keydown keyup`, blank lines skipped. On a malformed
    /// line the table is left as it was.
    pub fn import(&mut self, data: &[u8]) -> (r: Result<(), ImportError>)
        ensures
            match import_spec(data@) {
                Ok(es) => r is Ok && final(self)@.len() == es.len()
                    && forall|i: int| 0 <= i < es.len() ==> built_from(#[trigger] final(self)@[i], es[i]),
                Err(n) => r == Err::<(), ImportError>(ImportError { line: n as usize })
                    && final(self)@ == old(self)@,
            },
    {
        let lines = split_lines(data);
        let ghost ls = views(lines@);
        let mut table = NoteMappings::new();
        let mut j: usize = 0;
        assert(ls.take(0) =~= Seq::<Seq<u8>>::empty());
        while j < lines.len()
            invariant
                ls == views(lines@),
                ls == lines_of(data@),
                j <= lines@.len(),
                entries_spec(ls.take(j as int)) is Ok,
                table@.len() == entries_spec(ls.take(j as int))->Ok_0.len(),
                forall|i: int| 0 <= i < table@.len()
                    ==> built_from(#[trigger] table@[i], entries_spec(ls.take(j as int))->Ok_0[i]),
            decreases lines@.len() - j,
        {
            let ghost es = entries_spec(ls.take(j as int))->Ok_0;
            proof {
                assert(ls.take(j as int + 1).drop_last() =~= ls.take(j as int));
                assert(ls[j as int] == lines@[j as int]@);
            }
            let fields = split_fields(&lines[j]);
            if fields.len() > 0 {
                match parse_entry(&fields) {
                    None => {
                        proof { lemma_entries_err(ls, j as int + 1, j as int); }
                        return Err(ImportError { line: j });
                    },
                    Some(e) => {
                        let mut m = NoteMapping::new(e.0, e.1);
                        m.on.push(Event::KeyDown(e.2));
                        m.off.push(Event::KeyUp(e.3));
                        assert(m.on@ =~= seq![Event::KeyDown(e.2)]);
                        assert(m.off@ =~= seq![Event::KeyUp(e.3)]);
                        let ghost t0 = table@;
                        table.add(m);
                        assert forall|i: int| 0 <= i < table@.len()
                            implies built_from(#[trigger] table@[i], es.push(e)[i]) by {
                            if i < t0.len() {
                                assert(table@[i] == t0[i]);
                            }
                        }
                    },
                }
            }
            j = j + 1;
        }
        assert(ls.take(lines@.len() as int) =~= ls);
        *self = table;
        Ok(())
    }
}

/// A table imported from a well-formed file finds a mapping for exactly
/// the (note, channel) pairs that the file's lines name.
pub proof fn lemma_import_finds(data: Seq<u8>, t: Seq<NoteMapping>, note: u8, channel: u8)
    requires
        import_spec(data) is Ok,
        t.len() == import_spec(data)->Ok_0.len(),
        forall|i: int| 0 <= i < t.len() ==> built_from(#[trigger] t[i], import_spec(data)->Ok_0[i]),
    ensures
        (find_spec(t, note, channel) is Some) <==> exists|i: int|
            0 <= i < import_spec(data)->Ok_0.len()
            && (#[trigger] import_spec(data)->Ok_0[i]).0 == note
            && import_spec(data)->Ok_0[i].1 == channel,
{
    let es = import_spec(data)->Ok_0;
    if exists|i: int| 0 <= i < es.len() && (#[trigger] es[i]).0 == note && es[i].1 == channel {
        let i = choose|i: int| 0 <= i < es.len() && (#[trigger] es[i]).0 == note && es[i].1 == channel;
        assert(built_from(t[i], es[i]));
        lemma_find_some(t, note, channel, i);
    } else {
        assert forall|j: int| 0 <= j < t.len() implies !answers(#[trigger] t[j], note, channel) by {
            assert(built_from(t[j], es[j]));
        }
        lemma_find_none(t, note, channel);
    }
}

} // verus!
