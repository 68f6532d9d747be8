use vstd::prelude::*;
use vstd::string::StringExecFns;

verus! {

/// The twelve pitch classes of an octave, flats standing for their enharmonic sharps.
#[derive(Clone, Copy, Debug, PartialEq, Eq, Structural)]
pub enum Key {
    C,
    Db,
    D,
    Eb,
    E,
    F,
    Gb,
    G,
    Ab,
    A,
    Bb,
    B,
}

/// A key in an octave.
#[derive(Clone, Copy, Debug, PartialEq, Eq, Structural)]
pub struct Note(pub Key, pub usize);

/// Handle of a MIDI player that the note parser's events are meant for.
#[derive(Clone, Debug)]
pub struct MidiPlayer {
    /// Where its sound font is read from.
    pub path: String,
}

/// Parses space-separated note names (`C5 Eb5 G#4`) into notes.
#[derive(Clone, Debug)]
pub struct PianoNoteParser(pub MidiPlayer);

/// Name `n` (`'A'` to `'G'`, either case) of a natural key.
pub open spec fn natural_key(c: char) -> Option<Key> {
    if c == 'C' || c == 'c' {
        Some(Key::C)
    } else if c == 'D' || c == 'd' {
        Some(Key::D)
    } else if c == 'E' || c == 'e' {
        Some(Key::E)
    } else if c == 'F' || c == 'f' {
        Some(Key::F)
    } else if c == 'G' || c == 'g' {
        Some(Key::G)
    } else if c == 'A' || c == 'a' {
        Some(Key::A)
    } else if c == 'B' || c == 'b' {
        Some(Key::B)
    } else {
        None
    }
}

/// The key named by a letter and the character after it: a sharp (`#`) or a flat (`b`)
/// where the pair names one of the five black keys, otherwise the letter's natural key.
pub open spec fn key_of_pair(c: char, m: char) -> Option<Key> {
    if (c == 'C' || c == 'c') && m == '#' || (c == 'D' || c == 'd') && m == 'b' {
        Some(Key::Db)
    } else if (c == 'D' || c == 'd') && m == '#' || (c == 'E' || c == 'e') && m == 'b' {
        Some(Key::Eb)
    } else if (c == 'F' || c == 'f') && m == '#' || (c == 'G' || c == 'g') && m == 'b' {
        Some(Key::Gb)
    } else if (c == 'G' || c == 'g') && m == '#' || (c == 'A' || c == 'a') && m == 'b' {
        Some(Key::Ab)
    } else if (c == 'A' || c == 'a') && m == '#' || (c == 'B' || c == 'b') && m == 'b' {
        Some(Key::Bb)
    } else {
        natural_key(c)
    }
}

/// The value of a decimal digit character.
pub open spec fn digit_value(c: char) -> Option<nat> {
    if 48 <= (c as u32) <= 57 {
        Some((c as u32 - 48) as nat)
    } else {
        None
    }
}

/// The character of the decimal digit `d`.
pub open spec fn digit_char(d: nat) -> char {
    if d == 0 {
        '0'
    } else if d == 1 {
        '1'
    } else if d == 2 {
        '2'
    } else if d == 3 {
        '3'
    } else if d == 4 {
        '4'
    } else if d == 5 {
        '5'
    } else if d == 6 {
        '6'
    } else if d == 7 {
        '7'
    } else if d == 8 {
        '8'
    } else {
        '9'
    }
}

/// The decimal representation of `n`.
pub open spec fn decimal(n: nat) -> Seq<char>
    decreases n,
{
    if n < 10 {
        seq![digit_char(n)]
    } else {
        decimal(n / 10).push(digit_char(n % 10))
    }
}

/// The error message `at <pos><what>`.
pub open spec fn message(pos: nat, what: Seq<char>) -> Seq<char> {
    "at "@ + decimal(pos) + what
}

/// What a note string (characters with their offsets) reads as: nothing for an empty
/// string, a note for a key of one or two characters and a one-digit octave, and
/// otherwise the message of the first thing that is wrong.
pub open spec fn note_spec(s: Seq<(usize, char)>) -> Result<Option<Note>, Seq<char>> {
    if s.len() == 0 {
        Ok(None)
    } else if s.len() == 2 {
        match natural_key(s[0].1) {
            None => Err(message(s[0].0 as nat, ": invalid key"@)),
            Some(k) => match digit_value(s[1].1) {
                None => Err(message(s[1].0 as nat, ": invalid octave number"@)),
                Some(o) => Ok(Some(Note(k, o as usize))),
            },
        }
    } else if s.len() == 3 {
        match key_of_pair(s[0].1, s[1].1) {
            None => Err(message(s[0].0 as nat, ": invalid key"@)),
            Some(k) => match digit_value(s[2].1) {
                None => Err(message(s[1].0 as nat, ": invalid octave number"@)),
                Some(o) => Ok(Some(Note(k, o as usize))),
            },
        }
    } else {
        Err(message(s[0].0 as nat, ": note string may only be or 2 or 3 characters long"@))
    }
}

/// The result of a note parse, as a sequence of characters for its message.
pub open spec fn note_view(r: Result<Option<Note>, String>) -> Result<Option<Note>, Seq<char>> {
    match r {
        Ok(n) => Ok(n),
        Err(m) => Err(m@),
    }
}

/// Position of a key within its octave.
pub open spec fn key_index(k: Key) -> nat {
    match k {
        Key::C => 0,
        Key::Db => 1,
        Key::D => 2,
        Key::Eb => 3,
        Key::E => 4,
        Key::F => 5,
        Key::Gb => 6,
        Key::G => 7,
        Key::Ab => 8,
        Key::A => 9,
        Key::Bb => 10,
        Key::B => 11,
    }
}

fn digit_str(d: usize) -> (r: &'static str)
    requires
        d < 10,
    ensures
        r@ == seq![digit_char(d as nat)],
{
    proof {
        reveal_strlit("0");
        reveal_strlit("1");
        reveal_strlit("2");
        reveal_strlit("3");
        reveal_strlit("4");
        reveal_strlit("5");
        reveal_strlit("6");
        reveal_strlit("7");
        reveal_strlit("8");
        reveal_strlit("9");
    }
    if d == 0 {
        "0"
    } else if d == 1 {
        "1"
    } else if d == 2 {
        "2"
    } else if d == 3 {
        "3"
    } else if d == 4 {
        "4"
    } else if d == 5 {
        "5"
    } else if d == 6 {
        "6"
    } else if d == 7 {
        "7"
    } else if d == 8 {
        "8"
    } else {
        "9"
    }
}

/// Appends the decimal representation of `n`.
fn append_decimal(out: &mut String, n: usize)
    ensures
        final(out)@ == old(out)@ + decimal(n as nat),
    decreases n,
{
    if n >= 10 {
        append_decimal(out, n / 10);
    }
    out.append(digit_str(n % 10));
    assert(final(out)@ =~= old(out)@ + decimal(n as nat));
}

fn error_message(pos: usize, what: &str) -> (r: String)
    ensures
        r@ == message(pos as nat, what@),
{
    let mut s = String::from_str("at ");
    append_decimal(&mut s, pos);
    s.append(what);
    assert(s@ =~= message(pos as nat, what@));
    s
}

fn natural_key_of(c: char) -> (r: Option<Key>)
    ensures
        r == natural_key(c),
{
    if c == 'C' || c == 'c' {
        Some(Key::C)
    } else if c == 'D' || c == 'd' {
        Some(Key::D)
    } else if c == 'E' || c == 'e' {
        Some(Key::E)
    } else if c == 'F' || c == 'f' {
        Some(Key::F)
    } else if c == 'G' || c == 'g' {
        Some(Key::G)
    } else if c == 'A' || c == 'a' {
        Some(Key::A)
    } else if c == 'B' || c == 'b' {
        Some(Key::B)
    } else {
        None
    }
}

fn key_of(c: char, m: char) -> (r: Option<Key>)
    ensures
        r == key_of_pair(c, m),
{
    if (c == 'C' || c == 'c') && m == '#' || (c == 'D' || c == 'd') && m == 'b' {
        Some(Key::Db)
    } else if (c == 'D' || c == 'd') && m == '#' || (c == 'E' || c == 'e') && m == 'b' {
        Some(Key::Eb)
    } else if (c == 'F' || c == 'f') && m == '#' || (c == 'G' || c == 'g') && m == 'b' {
        Some(Key::Gb)
    } else if (c == 'G' || c == 'g') && m == '#' || (c == 'A' || c == 'a') && m == 'b' {
        Some(Key::Ab)
    } else if (c == 'A' || c == 'a') && m == '#' || (c == 'B' || c == 'b') && m == 'b' {
        Some(Key::Bb)
    } else {
        natural_key_of(c)
    }
}

fn digit_of(c: char) -> (r: Option<usize>)
    ensures
        r matches Some(d) ==> digit_value(c) == Some(d as nat),
        r is None ==> digit_value(c) is None,
{
    let v = c as u32;
    if 48 <= v && v <= 57 {
        Some((v - 48) as usize)
    } else {
        None
    }
}

impl Note {
    /// Reads a note string given with the offset of each character: `Ok(None)` for an
    /// empty string; a note for a letter (either case), an optional `#` or `b`, and a
    /// one-digit octave; otherwise a message that names the offending offset.
    pub fn from_spanned_str(s: &[(usize, char)]) -> (r: Result<Option<Note>, String>)
        ensures
            note_view(r) == note_spec(s@),
    {
        if s.len() == 0 {
            Ok(None)
        } else if s.len() == 2 {
            match natural_key_of(s[0].1) {
                None => Err(error_message(s[0].0, ": invalid key")),
                Some(k) => match digit_of(s[1].1) {
                    None => Err(error_message(s[1].0, ": invalid octave number")),
                    Some(o) => Ok(Some(Note(k, o))),
                },
            }
        } else if s.len() == 3 {
            match key_of(s[0].1, s[1].1) {
                None => Err(error_message(s[0].0, ": invalid key")),
                Some(k) => match digit_of(s[2].1) {
                    None => Err(error_message(s[1].0, ": invalid octave number")),
                    Some(o) => Ok(Some(Note(k, o))),
                },
            }
        } else {
            Err(error_message(s[0].0, ": note string may only be or 2 or 3 characters long"))
        }
    }

    /// The MIDI key number: twelve per octave, counted from C.
    pub fn number(&self) -> (r: i32)
        requires
            self.1 <= 9,
        ensures
            r == self.1 * 12 + key_index(self.0),
    {
        let base = (self.1 * 12) as i32;
        match self.0 {
            Key::C => base,
            Key::Db => base + 1,
            Key::D => base + 2,
            Key::Eb => base + 3,
            Key::E => base + 4,
            Key::F => base + 5,
            Key::Gb => base + 6,
            Key::G => base + 7,
            Key::Ab => base + 8,
            Key::A => base + 9,
            Key::Bb => base + 10,
            Key::B => base + 11,
        }
    }
}

} // verus!

verus! {

/// Whether a character has the Unicode `White_Space` property.
pub uninterp spec fn white_space(c: char) -> bool;

/// Relies on `char::is_whitespace`: its answer depends on the character alone, and a space
/// is whitespace.
#[verifier::external_body]
fn is_whitespace(c: char) -> (r: bool)
    ensures
        r == white_space(c),
        c == ' ' ==> r,
{
    c.is_whitespace()
}

/// `notes` put in front of what the rest of a pattern reads as.
pub open spec fn prepend_notes(notes: Seq<Note>, rest: Result<Seq<Note>, Seq<char>>) -> Result<Seq<Note>, Seq<char>> {
    match rest {
        Ok(v) => Ok(notes + v),
        Err(m) => Err(m),
    }
}

/// What the spanned characters `s` read as from offset `i` on, with the current note string
/// starting at `start`: the note strings are the runs between the characters that `blank`
/// marks; each is read in turn, empty ones are skipped, and the first error stops the read.
pub open spec fn notes_from(s: Seq<(usize, char)>, blank: Seq<bool>, start: int, i: int) -> Result<Seq<Note>, Seq<char>>
    decreases s.len() - i,
{
    if i >= s.len() || i < start || start < 0 {
        match note_spec(s.subrange(start, s.len() as int)) {
            Err(m) => Err(m),
            Ok(None) => Ok(seq![]),
            Ok(Some(n)) => Ok(seq![n]),
        }
    } else if blank[i] {
        match note_spec(s.subrange(start, i)) {
            Err(m) => Err(m),
            Ok(None) => notes_from(s, blank, i + 1, i + 1),
            Ok(Some(n)) => prepend_notes(seq![n], notes_from(s, blank, i + 1, i + 1)),
        }
    } else {
        notes_from(s, blank, start, i + 1)
    }
}

/// The characters of a pattern, each with its offset.
pub open spec fn spanned(pattern: Seq<char>) -> Seq<(usize, char)> {
    Seq::new(pattern.len(), |i: int| (i as usize, pattern[i]))
}

/// The notes of a result, with its message as a sequence of characters.
pub open spec fn notes_view(r: Result<Vec<Note>, String>) -> Result<Seq<Note>, Seq<char>> {
    match r {
        Ok(v) => Ok(v@),
        Err(m) => Err(m@),
    }
}

/// Reads the note strings of `s`, split at the characters that `blank` marks.
pub fn split_notes(s: &[(usize, char)], blank: &[bool]) -> (r: Result<Vec<Note>, String>)
    requires
        blank@.len() == s@.len(),
    ensures
        notes_view(r) == notes_from(s@, blank@, 0, 0),
{
    let mut out: Vec<Note> = Vec::new();
    let mut piece: Vec<(usize, char)> = Vec::new();
    let mut start: usize = 0;
    let mut i: usize = 0;
    while i < s.len()
        invariant
            blank@.len() == s@.len(),
            start <= i <= s@.len(),
            piece@ == s@.subrange(start as int, i as int),
            notes_from(s@, blank@, 0, 0) == prepend_notes(out@, notes_from(s@, blank@, start as int, i as int)),
        decreases s@.len() - i,
    {
        if blank[i] {
            let parsed = Note::from_spanned_str(piece.as_slice());
            match parsed {
                Err(m) => {
                    assert(notes_from(s@, blank@, start as int, i as int) == Err::<Seq<Note>, Seq<char>>(
                        m@,
                    ));
                    return Err(m);
                },
                Ok(None) => {},
                Ok(Some(n)) => {
                    let ghost before = out@;
                    out.push(n);
                    assert(prepend_notes(before, prepend_notes(seq![n], notes_from(s@, blank@, i + 1, i + 1)))
                        == prepend_notes(out@, notes_from(s@, blank@, i + 1, i + 1))) by {
                        assert(before + seq![n] =~= out@);
                        match notes_from(s@, blank@, i + 1, i + 1) {
                            Ok(v) => {
                                assert(before + (seq![n] + v) =~= out@ + v);
                            },
                            Err(_) => {},
                        }
                    }
                },
            }
            piece = Vec::new();
            start = i + 1;
            assert(piece@ =~= s@.subrange(start as int, (i + 1) as int));
        } else {
            piece.push(s[i]);
            assert(piece@ =~= s@.subrange(start as int, (i + 1) as int));
        }
        i += 1;
    }
    let parsed = Note::from_spanned_str(piece.as_slice());
    match parsed {
        Err(m) => {
            assert(notes_from(s@, blank@, start as int, i as int) == Err::<Seq<Note>, Seq<char>>(m@));
            Err(m)
        },
        Ok(None) => {
            assert(out@ + seq![] =~= out@);
            Ok(out)
        },
        Ok(Some(n)) => {
            let ghost before = out@;
            out.push(n);
            assert(before + seq![n] =~= out@);
            Ok(out)
        },
    }
}

impl MidiPlayer {
    /// A player that reads its sound font from `path`.
    pub fn new(path: &str) -> (r: Result<Self, String>)
        ensures
            r matches Ok(p) && p.path@ == path@,
    {
        Ok(MidiPlayer { path: String::from_str(path) })
    }
}

impl PianoNoteParser {
    /// A note parser whose events go to `player`.
    pub fn new(player: MidiPlayer) -> (r: Self)
        ensures
            r.0 == player,
    {
        PianoNoteParser(player)
    }

    /// Reads the whitespace-separated note strings of `pattern` into notes, in order; the
    /// first note string that is not a note ends the read with its message.
    pub fn parse_notes(&self, pattern: &[char]) -> (r: Result<Vec<Note>, String>)
        ensures
            notes_view(r) == notes_from(
                spanned(pattern@),
                pattern@.map_values(|c: char| white_space(c)),
                0,
                0,
            ),
    {
        let mut s: Vec<(usize, char)> = Vec::new();
        let mut blank: Vec<bool> = Vec::new();
        let mut i: usize = 0;
        while i < pattern.len()
            invariant
                i <= pattern@.len(),
                s@ == spanned(pattern@).subrange(0, i as int),
                blank@ == pattern@.map_values(|c: char| white_space(c)).subrange(0, i as int),
            decreases pattern@.len() - i,
        {
            s.push((i, pattern[i]));
            blank.push(is_whitespace(pattern[i]));
            assert(s@ =~= spanned(pattern@).subrange(0, i + 1));
            assert(blank@ =~= pattern@.map_values(|c: char| white_space(c)).subrange(0, i + 1));
            i += 1;
        }
        assert(s@ =~= spanned(pattern@));
        assert(blank@ =~= pattern@.map_values(|c: char| white_space(c)));
        split_notes(s.as_slice(), blank.as_slice())
    }
}

/// Each note paired with its place in the sequence.
pub open spec fn numbered(notes: Seq<Note>) -> Seq<(usize, Note)> {
    Seq::new(notes.len(), |i: int| (i as usize, notes[i]))
}

impl PianoNoteParser {
    /// The notes of `pattern` as timed events: the `i`-th note at grid position `i`.
    pub fn parse(&self, pattern: &[char]) -> (r: Result<Vec<(usize, Note)>, String>)
        ensures
            match notes_from(spanned(pattern@), pattern@.map_values(|c: char| white_space(c)), 0, 0) {
                Ok(notes) => r is Ok && r->Ok_0@ == numbered(notes),
                Err(m) => r is Err && r->Err_0@ == m,
            },
    {
        match self.parse_notes(pattern) {
            Err(m) => Err(m),
            Ok(notes) => {
                let mut out: Vec<(usize, Note)> = Vec::new();
                let mut i: usize = 0;
                while i < notes.len()
                    invariant
                        i <= notes@.len(),
                        out@ == numbered(notes@).subrange(0, i as int),
                    decreases notes@.len() - i,
                {
                    out.push((i, notes[i]));
                    i += 1;
                    assert(out@ =~= numbered(notes@).subrange(0, i as int));
                }
                assert(numbered(notes@).subrange(0, notes@.len() as int) =~= numbered(notes@));
                Ok(out)
            },
        }
    }
}

} // verus!
