//! Trance lead MIDI generator: configuration, naming, chord and scale helpers.
use vstd::prelude::*;
use crate::text::{ascii_lower, chars_of, decimal, eq_ignore_ascii_case, same_ignoring_case, decimal_padded, push_char, push_decimal, push_decimal_padded, push_str, trim_ws};

verus! {

/// Pulses per quarter note of generated files.
pub const PPQN: u32 = 96;

/// The lead patterns the generator knows.
#[derive(Clone, Copy, PartialEq, Eq, Debug, Structural)]
pub enum LeadType {
    TwoLayer,
    Zigzag,
    Bounce,
    Cell,
    Shuffle,
    ChordArp,
    GatedStab,
    PadChord,
    DeepBass,
    SubBass,
    Progressive,
    Trill,
    SlowMelody,
    ChordPluck,
    PianoChord,
    Unison,
}

pub open spec fn lead_type_name(lt: LeadType) -> Seq<char> {
    match lt {
        LeadType::TwoLayer => "TwoLayer"@,
        LeadType::Zigzag => "Zigzag"@,
        LeadType::Bounce => "Bounce"@,
        LeadType::Cell => "Cell"@,
        LeadType::Shuffle => "Shuffle"@,
        LeadType::ChordArp => "ChordArp"@,
        LeadType::GatedStab => "GatedStab"@,
        LeadType::PadChord => "PadChord"@,
        LeadType::DeepBass => "DeepBass"@,
        LeadType::SubBass => "SubBass"@,
        LeadType::Progressive => "Progressive"@,
        LeadType::Trill => "Trill"@,
        LeadType::SlowMelody => "SlowMelody"@,
        LeadType::ChordPluck => "ChordPluck"@,
        LeadType::PianoChord => "PianoChord"@,
        LeadType::Unison => "Unison"@,
    }
}

impl LeadType {
    /// The pattern's name as used in file and track names.
    pub fn short_name(self) -> (r: &'static str)
        ensures
            r@ == lead_type_name(self),
    {
        match self {
            LeadType::TwoLayer => "TwoLayer",
            LeadType::Zigzag => "Zigzag",
            LeadType::Bounce => "Bounce",
            LeadType::Cell => "Cell",
            LeadType::Shuffle => "Shuffle",
            LeadType::ChordArp => "ChordArp",
            LeadType::GatedStab => "GatedStab",
            LeadType::PadChord => "PadChord",
            LeadType::DeepBass => "DeepBass",
            LeadType::SubBass => "SubBass",
            LeadType::Progressive => "Progressive",
            LeadType::Trill => "Trill",
            LeadType::SlowMelody => "SlowMelody",
            LeadType::ChordPluck => "ChordPluck",
            LeadType::PianoChord => "PianoChord",
            LeadType::Unison => "Unison",
        }
    }
}

/// Settings of one generated file (or of a batch of variations).
#[derive(Clone, Debug)]
pub struct MidiGenConfig {
    /// Key root pitch class: 0=C, 1=C#, 2=D … 11=B.
    pub key_root: u8,
    /// `true` = minor, `false` = major.
    pub minor: bool,
    pub lead_type: LeadType,
    /// Chord progression as semitone offsets from `key_root`; ignored when
    /// `progression` is not empty.
    pub chords: Vec<i8>,
    /// Chord progression as chord names such as "Am", "Dm", "F#".
    pub progression: Vec<String>,
    /// Tempo written to the file.
    pub bpm: u16,
    pub bars_per_chord: u8,
    /// Total length in bars; the progression repeats or is cut to fill it.
    pub length_bars: Option<u32>,
    /// How far the melody strays from the key, 0–100.
    pub chromaticism: u8,
    pub seed: u64,
    /// Track name embedded in the file.
    pub name: Option<String>,
    /// Number of variations to generate.
    pub variations: Option<u16>,
}

/// Default chromaticism of a configuration.
pub fn default_chromaticism() -> (r: u8)
    ensures
        r == 15,
{
    15
}

/// A note: start tick, MIDI pitch, velocity and length in ticks.
#[derive(Clone, Copy, Debug)]
pub struct NoteEvent {
    pub tick: u32,
    pub pitch: u8,
    pub vel: u8,
    pub dur: u32,
}

// ---------------------------------------------------------------------------
// Note names
// ---------------------------------------------------------------------------

/// File-name spelling of pitch class `pc` ("Cs" for C#).
pub open spec fn note_file_name(pc: int) -> Seq<char> {
    if pc == 0 { "C"@ } else if pc == 1 { "Cs"@ } else if pc == 2 { "D"@ } else if pc == 3 { "Ds"@ }
    else if pc == 4 { "E"@ } else if pc == 5 { "F"@ } else if pc == 6 { "Fs"@ } else if pc == 7 { "G"@ }
    else if pc == 8 { "Gs"@ } else if pc == 9 { "A"@ } else if pc == 10 { "As"@ } else { "B"@ }
}

/// Display spelling of pitch class `pc` ("C#").
pub open spec fn note_display_name(pc: int) -> Seq<char> {
    if pc == 0 { "C"@ } else if pc == 1 { "C#"@ } else if pc == 2 { "D"@ } else if pc == 3 { "D#"@ }
    else if pc == 4 { "E"@ } else if pc == 5 { "F"@ } else if pc == 6 { "F#"@ } else if pc == 7 { "G"@ }
    else if pc == 8 { "G#"@ } else if pc == 9 { "A"@ } else if pc == 10 { "A#"@ } else { "B"@ }
}

fn note_file_str(pc: u8) -> (r: &'static str)
    requires
        pc < 12,
    ensures
        r@ == note_file_name(pc as int),
{
    if pc == 0 { "C" } else if pc == 1 { "Cs" } else if pc == 2 { "D" } else if pc == 3 { "Ds" }
    else if pc == 4 { "E" } else if pc == 5 { "F" } else if pc == 6 { "Fs" } else if pc == 7 { "G" }
    else if pc == 8 { "Gs" } else if pc == 9 { "A" } else if pc == 10 { "As" } else { "B" }
}

pub fn note_display_str(pc: u8) -> (r: &'static str)
    requires
        pc < 12,
    ensures
        r@ == note_display_name(pc as int),
{
    if pc == 0 { "C" } else if pc == 1 { "C#" } else if pc == 2 { "D" } else if pc == 3 { "D#" }
    else if pc == 4 { "E" } else if pc == 5 { "F" } else if pc == 6 { "F#" } else if pc == 7 { "G" }
    else if pc == 8 { "G#" } else if pc == 9 { "A" } else if pc == 10 { "A#" } else { "B" }
}

pub open spec fn scale_suffix(minor: bool) -> Seq<char> {
    if minor { "m"@ } else { ""@ }
}

// ---------------------------------------------------------------------------
// Chord names
// ---------------------------------------------------------------------------

/// `s` with every trailing copy of `p` removed.
pub open spec fn trim_end_matches(s: Seq<char>, p: Seq<char>) -> Seq<char>
    decreases s.len(),
{
    if p.len() > 0 && s.len() >= p.len() && s.subrange(s.len() - p.len(), s.len() as int) == p {
        trim_end_matches(s.subrange(0, s.len() - p.len()), p)
    } else {
        s
    }
}

/// The note part of a chord name: trimmed, with trailing quality words removed.
pub open spec fn chord_base(s: Seq<char>) -> Seq<char> {
    trim_ws(
        trim_end_matches(
            trim_end_matches(
                trim_end_matches(trim_end_matches(trim_end_matches(trim_ws(s), "minor"@), "major"@), "min"@),
                "maj"@,
            ),
            "m"@,
        ),
    )
}

/// The chord-name table: spelling and pitch class.
pub open spec fn chord_table(i: int) -> (Seq<char>, u8) {
    if i == 0 { ("C"@, 0) } else if i == 1 { ("C#"@, 1) } else if i == 2 { ("Db"@, 1) }
    else if i == 3 { ("D"@, 2) } else if i == 4 { ("D#"@, 3) } else if i == 5 { ("Eb"@, 3) }
    else if i == 6 { ("E"@, 4) } else if i == 7 { ("F"@, 5) } else if i == 8 { ("F#"@, 6) }
    else if i == 9 { ("Gb"@, 6) } else if i == 10 { ("G"@, 7) } else if i == 11 { ("G#"@, 8) }
    else if i == 12 { ("Ab"@, 8) } else if i == 13 { ("A"@, 9) } else if i == 14 { ("A#"@, 10) }
    else if i == 15 { ("Bb"@, 10) } else if i == 16 { ("B"@, 11) } else { ("Cb"@, 11) }
}

/// Searches the first `k` table entries from the last one down.
pub open spec fn chord_lookup(base: Seq<char>, k: nat) -> Option<u8>
    decreases k,
{
    if k == 0 {
        None
    } else if eq_ignore_ascii_case(base, chord_table(k - 1).0) {
        Some(chord_table(k - 1).1)
    } else {
        chord_lookup(base, (k - 1) as nat)
    }
}

/// Pitch class of a chord name such as "Am", "F#m", "Bbm" or "G".
pub open spec fn spec_parse_chord_name(s: Seq<char>) -> Option<u8> {
    if trim_ws(s).len() == 0 {
        None
    } else {
        chord_lookup(chord_base(s), 18)
    }
}

/// A `String` holding `cs`.
pub fn string_of(cs: &Vec<char>) -> (r: String)
    ensures
        r@ == cs@,
{
    let mut out = String::new();
    let mut i: usize = 0;
    while i < cs.len()
        invariant
            i <= cs.len(),
            out@ == cs@.take(i as int),
        decreases cs.len() - i,
    {
        push_char(&mut out, cs[i]);
        i = i + 1;
        assert(out@ =~= cs@.take(i as int));
    }
    assert(cs@.take(cs.len() as int) =~= cs@);
    out
}

/// Removes every trailing copy of `p` from `s`.
fn trim_end_matching(s: Vec<char>, p: &str) -> (r: Vec<char>)
    ensures
        r@ == trim_end_matches(s@, p@),
{
    let pc = chars_of(p);
    let mut cur = s;
    if pc.len() == 0 {
        return cur;
    }
    loop
        invariant
            pc@ == p@,
            pc.len() > 0,
            trim_end_matches(cur@, p@) == trim_end_matches(s@, p@),
        decreases cur.len(),
    {
        let n = cur.len();
        let m = pc.len();
        if n < m {
            return cur;
        }
        let mut j: usize = 0;
        let mut same = true;
        while j < m
            invariant
                j <= m,
                m == pc.len(),
                n == cur.len(),
                m <= n,
                same == (forall|k: int| 0 <= k < j ==> cur@[n - m + k] == pc@[k]),
            decreases m - j,
        {
            if cur[n - m + j] != pc[j] {
                same = false;
            }
            j = j + 1;
        }
        if same {
            assert(cur@.subrange(n - m, n as int) =~= p@);
            let ghost prev = cur@;
            cur.truncate(n - m);
            assert(cur@ =~= prev.subrange(0, n - m));
        } else {
            assert(cur@.subrange(n - m, n as int) != p@) by {
                let k = choose|k: int| 0 <= k < m && cur@[n - m + k] != pc@[k];
                assert(cur@.subrange(n - m, n as int)[k] == cur@[n - m + k]);
            }
            return cur;
        }
    }
}

fn chord_table_entry(i: u8) -> (r: (&'static str, u8))
    requires
        i < 18,
    ensures
        r.0@ == chord_table(i as int).0,
        r.1 == chord_table(i as int).1,
{
    if i == 0 { ("C", 0) } else if i == 1 { ("C#", 1) } else if i == 2 { ("Db", 1) }
    else if i == 3 { ("D", 2) } else if i == 4 { ("D#", 3) } else if i == 5 { ("Eb", 3) }
    else if i == 6 { ("E", 4) } else if i == 7 { ("F", 5) } else if i == 8 { ("F#", 6) }
    else if i == 9 { ("Gb", 6) } else if i == 10 { ("G", 7) } else if i == 11 { ("G#", 8) }
    else if i == 12 { ("Ab", 8) } else if i == 13 { ("A", 9) } else if i == 14 { ("A#", 10) }
    else if i == 15 { ("Bb", 10) } else if i == 16 { ("B", 11) } else { ("Cb", 11) }
}

/// Parses a chord name like "Am", "C", "F#m", "Dm", "Bbm", "G" into a pitch class
/// (0–11); `None` for an unknown name.
pub fn parse_chord_name(s: &str) -> (r: Option<u8>)
    ensures
        r == spec_parse_chord_name(s@),
        r matches Some(pc) ==> pc < 12,
{
    let t = crate::text::trim(s);
    if t.is_empty() {
        return None;
    }
    let cs = chars_of(t);
    let cs = trim_end_matching(cs, "minor");
    let cs = trim_end_matching(cs, "major");
    let cs = trim_end_matching(cs, "min");
    let cs = trim_end_matching(cs, "maj");
    let cs = trim_end_matching(cs, "m");
    let joined = string_of(&cs);
    let base = chars_of(crate::text::trim(joined.as_str()));
    assert(base@ == chord_base(s@));
    let mut k: u8 = 18;
    while k > 0
        invariant
            k <= 18,
            chord_lookup(base@, k as nat) == spec_parse_chord_name(s@),
        decreases k,
    {
        let (name, pc) = chord_table_entry(k - 1);
        if same_ignoring_case(&base, name) {
            return Some(pc);
        }
        k = k - 1;
    }
    None
}

/// Pitch class of a note letter in either case: C 0, D 2, E 4, F 5, G 7, A 9,
/// B 11 (0 for a character that is no note letter).
pub open spec fn letter_pc(c: char) -> int {
    if c == 'C' || c == 'c' {
        0
    } else if c == 'D' || c == 'd' {
        2
    } else if c == 'E' || c == 'e' {
        4
    } else if c == 'F' || c == 'f' {
        5
    } else if c == 'G' || c == 'g' {
        7
    } else if c == 'A' || c == 'a' {
        9
    } else if c == 'B' || c == 'b' {
        11
    } else {
        0
    }
}

/// What an accidental adds: a sharp one semitone, a flat (`b` in either case)
/// minus one, anything else nothing.
pub open spec fn accidental_shift(c: char) -> int {
    if c == '#' {
        1
    } else if c == 'b' || c == 'B' {
        -1
    } else {
        0
    }
}

/// Pitch class of a note name such as "C", "F#" or "Bb": its letter moved by
/// its accidental, modulo 12.
pub open spec fn note_name_pc(s: Seq<char>) -> int {
    if s.len() == 0 {
        0
    } else {
        (letter_pc(s[0]) + if s.len() > 1 { accidental_shift(s[1]) } else { 0 }) % 12
    }
}

/// Names equal up to ASCII case are the same note.
proof fn lemma_note_name_pc_ignores_case(a: Seq<char>, b: Seq<char>)
    requires
        eq_ignore_ascii_case(a, b),
    ensures
        note_name_pc(a) == note_name_pc(b),
{
    if a.len() > 0 {
        assert(ascii_lower(a[0]) == ascii_lower(b[0]));
        lemma_lower_same_letter(a[0], b[0]);
        if a.len() > 1 {
            assert(ascii_lower(a[1]) == ascii_lower(b[1]));
            lemma_lower_same_letter(a[1], b[1]);
        }
    }
}

proof fn lemma_lower_same_letter(x: char, y: char)
    requires
        ascii_lower(x) == ascii_lower(y),
    ensures
        letter_pc(x) == letter_pc(y),
        accidental_shift(x) == accidental_shift(y),
{
    assert('A' as u32 == 65 && 'Z' as u32 == 90 && 'a' as u32 == 97);
}

/// Every spelling in the chord-name table carries the pitch class music theory
/// gives it: letter value plus one for a sharp, minus one for a flat, modulo 12
/// ("Cb" is 11, "B" is 11, "Bb" is 10).
pub proof fn law_chord_table_by_theory(i: int)
    requires
        0 <= i < 18,
    ensures
        chord_table(i).1 as int == note_name_pc(chord_table(i).0),
{
    reveal_strlit("C");
    reveal_strlit("C#");
    reveal_strlit("Db");
    reveal_strlit("D");
    reveal_strlit("D#");
    reveal_strlit("Eb");
    reveal_strlit("E");
    reveal_strlit("F");
    reveal_strlit("F#");
    reveal_strlit("Gb");
    reveal_strlit("G");
    reveal_strlit("G#");
    reveal_strlit("Ab");
    reveal_strlit("A");
    reveal_strlit("A#");
    reveal_strlit("Bb");
    reveal_strlit("B");
    reveal_strlit("Cb");
}

proof fn lemma_lookup_by_theory(base: Seq<char>, k: nat)
    requires
        k <= 18,
    ensures
        chord_lookup(base, k) matches Some(pc) ==> pc as int == note_name_pc(base),
    decreases k,
{
    if k > 0 {
        if eq_ignore_ascii_case(base, chord_table(k - 1).0) {
            law_chord_table_by_theory(k - 1);
            lemma_note_name_pc_ignores_case(base, chord_table(k - 1).0);
        } else {
            lemma_lookup_by_theory(base, (k - 1) as nat);
        }
    }
}

/// A recognised chord name gives the pitch class of its root by music theory,
/// whatever its quality suffix: the root's letter value plus one for a sharp,
/// minus one for a flat, modulo 12 ("B", "Bm" and "Bmin" give 11, "Bbm" 10).
pub proof fn law_chord_name_by_theory(s: Seq<char>)
    ensures
        spec_parse_chord_name(s) matches Some(pc) ==> pc as int == note_name_pc(chord_base(s)),
{
    lemma_lookup_by_theory(chord_base(s), 18);
}

/// A spelled note: a letter from A to G, then at most one sharp or flat, other
/// than E#, Fb and B# (which the chord-name table does not spell).
pub open spec fn is_note_spelling(n: Seq<char>) -> bool {
    &&& 1 <= n.len() <= 2
    &&& 'A' <= n[0] <= 'G'
    &&& n.len() == 2 ==> (n[1] == '#' || n[1] == 'b')
    &&& n != seq!['E', '#'] && n != seq!['F', 'b'] && n != seq!['B', '#']
}

proof fn lemma_lookup_finds(base: Seq<char>, k: nat, i: int)
    requires
        0 <= i < k <= 18,
        chord_table(i).0 == base,
    ensures
        chord_lookup(base, k) is Some,
    decreases k,
{
    if !eq_ignore_ascii_case(base, chord_table(k - 1).0) {
        lemma_lookup_finds(base, (k - 1) as nat, i);
    }
}

proof fn lemma_not_suffix(s: Seq<char>, p: Seq<char>)
    requires
        p.len() > 0,
        s.len() < p.len() || s[s.len() - 1] != p[p.len() - 1] || s[s.len() - p.len()] != p[0],
    ensures
        trim_end_matches(s, p) == s,
{
    if s.len() >= p.len() {
        let t = s.subrange(s.len() - p.len(), s.len() as int);
        assert(t[t.len() - 1] == s[s.len() - 1]);
        assert(t[0] == s[s.len() - p.len()]);
        assert(t != p);
    }
}

/// Every spelled note is a chord name, alone or with a minor "m": it gives the
/// note's pitch class ("B" and "Bm" give 11, "Db" 1, "Cb" 11).
pub proof fn law_note_names_parse(n: Seq<char>, minor: bool)
    requires
        is_note_spelling(n),
    ensures
        spec_parse_chord_name(if minor { n + seq!['m'] } else { n }) == Some(note_name_pc(n) as u8),
{
    reveal_strlit("minor");
    reveal_strlit("major");
    reveal_strlit("min");
    reveal_strlit("maj");
    reveal_strlit("m");
    let s = if minor { n + seq!['m'] } else { n };
    assert(!crate::text::is_unicode_whitespace(s[0]));
    assert(!crate::text::is_unicode_whitespace(s.last()));
    assert(trim_ws(s) == s) by {
        reveal_with_fuel(crate::text::trim_start_ws, 2);
        reveal_with_fuel(crate::text::trim_end_ws, 2);
    }
    assert(s[s.len() - 1] == if minor { 'm' } else { n[n.len() - 1] });
    lemma_not_suffix(s, "minor"@);
    lemma_not_suffix(s, "major"@);
    lemma_not_suffix(s, "min"@);
    lemma_not_suffix(s, "maj"@);
    assert(trim_end_matches(s, "m"@) == n) by {
        if minor {
            assert(s.subrange(s.len() - 1, s.len() as int) =~= "m"@);
            assert(s.subrange(0, s.len() - 1) =~= n);
            lemma_not_suffix(n, "m"@);
        } else {
            lemma_not_suffix(n, "m"@);
        }
    }
    assert(n[0] != ' ' && n[n.len() - 1] != ' ');
    assert(!crate::text::is_unicode_whitespace(n[0]));
    assert(!crate::text::is_unicode_whitespace(n.last()));
    assert(trim_ws(n) == n) by {
        reveal_with_fuel(crate::text::trim_start_ws, 2);
        reveal_with_fuel(crate::text::trim_end_ws, 2);
    }
    assert(chord_base(s) == n);
    reveal_strlit("C");
    reveal_strlit("C#");
    reveal_strlit("Db");
    reveal_strlit("D");
    reveal_strlit("D#");
    reveal_strlit("Eb");
    reveal_strlit("E");
    reveal_strlit("F");
    reveal_strlit("F#");
    reveal_strlit("Gb");
    reveal_strlit("G");
    reveal_strlit("G#");
    reveal_strlit("Ab");
    reveal_strlit("A");
    reveal_strlit("A#");
    reveal_strlit("Bb");
    reveal_strlit("B");
    reveal_strlit("Cb");
    let w: int = if n.len() == 1 {
        if n[0] == 'C' { 0 } else if n[0] == 'D' { 3 } else if n[0] == 'E' { 6 } else if n[0] == 'F' { 7 }
        else if n[0] == 'G' { 10 } else if n[0] == 'A' { 13 } else { 16 }
    } else if n[1] == '#' {
        if n[0] == 'C' { 1 } else if n[0] == 'D' { 4 } else if n[0] == 'F' { 8 } else if n[0] == 'G' { 11 } else { 14 }
    } else {
        if n[0] == 'D' { 2 } else if n[0] == 'E' { 5 } else if n[0] == 'G' { 9 } else if n[0] == 'A' { 12 }
        else if n[0] == 'B' { 15 } else { 17 }
    };
    if n.len() == 2 {
        if n[0] == 'E' && n[1] == '#' {
            assert(n =~= seq!['E', '#']);
        }
        if n[0] == 'B' && n[1] == '#' {
            assert(n =~= seq!['B', '#']);
        }
        if n[0] == 'F' && n[1] == 'b' {
            assert(n =~= seq!['F', 'b']);
        }
    }
    assert(chord_table(w).0 =~= n);
    lemma_lookup_finds(n, 18, w);
    law_chord_name_by_theory(s);
}

/// Offset from the key root to a chord root, in semitones 0–11.
pub open spec fn chord_offset(pc: u8, key_root: u8) -> i8 {
    ((pc as int - key_root as int) % 12) as i8
}

/// Chord offsets of the recognised names of `names`, in order.
pub open spec fn resolve_names(names: Seq<Seq<char>>, key_root: u8) -> Seq<i8>
    decreases names.len(),
{
    if names.len() == 0 {
        Seq::empty()
    } else {
        let r = resolve_names(names.drop_last(), key_root);
        match spec_parse_chord_name(names.last()) {
            Some(pc) => r.push(chord_offset(pc, key_root)),
            None => r,
        }
    }
}

pub open spec fn names_of(v: Seq<String>) -> Seq<Seq<char>> {
    v.map_values(|s: String| s@)
}

/// The effective chord offsets: those of the named progression when it is given,
/// else the raw offsets.
pub open spec fn spec_resolve_chords(config: MidiGenConfig) -> Seq<i8> {
    if config.progression@.len() > 0 {
        resolve_names(names_of(config.progression@), config.key_root)
    } else {
        config.chords@
    }
}

pub proof fn lemma_resolve_names_len(names: Seq<Seq<char>>, key_root: u8)
    ensures
        resolve_names(names, key_root).len() <= names.len(),
    decreases names.len(),
{
    if names.len() > 0 {
        lemma_resolve_names_len(names.drop_last(), key_root);
    }
}

/// Resolves the effective chord list: progression names to offsets, or the raw
/// `chords`.
pub fn resolve_chords(config: &MidiGenConfig) -> (r: Vec<i8>)
    ensures
        r@ == spec_resolve_chords(*config),
{
    if config.progression.len() > 0 {
        let mut out: Vec<i8> = Vec::new();
        let mut i: usize = 0;
        while i < config.progression.len()
            invariant
                i <= config.progression.len(),
                out@ == resolve_names(names_of(config.progression@.take(i as int)), config.key_root),
            decreases config.progression.len() - i,
        {
            let name = config.progression[i].as_str();
            let ghost pre = names_of(config.progression@.take(i as int));
            assert(names_of(config.progression@.take((i + 1) as int)).drop_last() =~= pre);
            assert(names_of(config.progression@.take((i + 1) as int)).last() == name@);
            match parse_chord_name(name) {
                Some(pc) => {
                    let d: i16 = pc as i16 - config.key_root as i16;
                    let m: i16 = ((d % 12) + 12) % 12;
                    assert(m as int == (pc as int - config.key_root as int) % 12);
                    out.push(m as i8);
                },
                None => {},
            }
            i = i + 1;
        }
        assert(config.progression@.take(config.progression.len() as int) =~= config.progression@);
        out
    } else {
        config.chords.clone()
    }
}

/// What `validate` answers: the first rule that `config` breaks.
pub open spec fn spec_validate(config: MidiGenConfig) -> Result<(), Seq<char>> {
    if config.key_root > 11 {
        Err("key_root must be 0–11"@)
    } else if config.chords@.len() == 0 && config.progression@.len() == 0 {
        Err("chords or progression must not be empty"@)
    } else if config.bpm == 0 || config.bpm > 300 {
        Err("bpm must be 1–300"@)
    } else if config.bars_per_chord == 0 {
        Err("bars_per_chord must be >= 1"@)
    } else {
        Ok(())
    }
}

pub open spec fn result_text(r: Result<(), String>) -> Result<(), Seq<char>> {
    match r {
        Ok(()) => Ok(()),
        Err(e) => Err(e@),
    }
}

/// Checks a configuration: key root 0–11, some chords, tempo 1–300, at least one
/// bar per chord.
pub fn validate(config: &MidiGenConfig) -> (r: Result<(), String>)
    ensures
        result_text(r) == spec_validate(*config),
{
    if config.key_root > 11 {
        return Err(crate::text::owned("key_root must be 0–11"));
    }
    if config.chords.len() == 0 && config.progression.len() == 0 {
        return Err(crate::text::owned("chords or progression must not be empty"));
    }
    if config.bpm == 0 || config.bpm > 300 {
        return Err(crate::text::owned("bpm must be 1–300"));
    }
    if config.bars_per_chord == 0 {
        return Err(crate::text::owned("bars_per_chord must be >= 1"));
    }
    Ok(())
}

/// Bars per chord, at least one.
pub open spec fn bars_per_chord_at_least_one(config: MidiGenConfig) -> nat {
    if config.bars_per_chord == 0 { 1 } else { config.bars_per_chord as nat }
}

/// Total length in bars named in file names.
pub open spec fn total_bars(config: MidiGenConfig) -> nat {
    match config.length_bars {
        Some(lb) => lb as nat,
        None => spec_resolve_chords(config).len() * bars_per_chord_at_least_one(config),
    }
}

/// The total bar count fits the `u32` it is computed in.
pub open spec fn total_bars_fits(config: MidiGenConfig) -> bool {
    config.length_bars is None ==> total_bars(config) <= u32::MAX
}

/// A descriptive file name such as `Am_TwoLayer_4chords_8bars_140bpm_seed42`
/// (key, lead type, number of chords, total bars, tempo and seed), without
/// extension or variation number.
pub open spec fn spec_base_name(config: MidiGenConfig) -> Seq<char> {
    note_file_name(config.key_root as int % 12) + scale_suffix(config.minor) + "_"@ + lead_type_name(
        config.lead_type,
    ) + "_"@ + decimal(spec_resolve_chords(config).len()) + "chords_"@ + decimal(total_bars(config)) + "bars_"@
        + decimal(config.bpm as nat) + "bpm_seed"@ + decimal(config.seed as nat)
}

/// Builds a descriptive file name like `Am_TwoLayer_4chords_8bars_140bpm_seed42`.
/// It holds neither the `.mid` extension nor a variation number.
pub fn build_base_name(config: &MidiGenConfig) -> (r: String)
    requires
        total_bars_fits(*config),
    ensures
        r@ == spec_base_name(*config),
{
    let chords = resolve_chords(config);
    let bpc: u32 = if config.bars_per_chord == 0 { 1 } else { config.bars_per_chord as u32 };
    let total: u32 = match config.length_bars {
        Some(lb) => lb,
        None => {
            proof {
                let n = chords@.len();
                assert(n * bpc <= u32::MAX);
                assert(n <= u32::MAX) by (nonlinear_arith)
                    requires
                        n * bpc <= u32::MAX,
                        bpc >= 1,
                ;
            }
            (chords.len() as u32) * bpc
        },
    };
    let mut out = String::new();
    push_str(&mut out, note_file_str(config.key_root % 12));
    if config.minor {
        push_str(&mut out, "m");
    } else {
        push_str(&mut out, "");
    }
    push_str(&mut out, "_");
    push_str(&mut out, config.lead_type.short_name());
    push_str(&mut out, "_");
    push_decimal(&mut out, chords.len() as u64);
    push_str(&mut out, "chords_");
    push_decimal(&mut out, total as u64);
    push_str(&mut out, "bars_");
    push_decimal(&mut out, config.bpm as u64);
    push_str(&mut out, "bpm_seed");
    push_decimal(&mut out, config.seed);
    assert(out@ =~= spec_base_name(*config));
    out
}

/// File name of variation `i` of `n`.
pub open spec fn spec_filename(config: MidiGenConfig, i: nat, n: nat) -> Seq<char> {
    if n == 1 {
        spec_base_name(config) + ".mid"@
    } else {
        spec_base_name(config) + "_"@ + decimal_padded(i + 1, 2) + ".mid"@
    }
}

/// Builds the full file name of variation `i` of `n` (1-based and zero-padded to two
/// digits in the name, left out when there is only one).
pub fn build_filename(config: &MidiGenConfig, i: usize, n: usize) -> (r: String)
    requires
        total_bars_fits(*config),
        n != 1 ==> i < usize::MAX,
    ensures
        r@ == spec_filename(*config, i as nat, n as nat),
{
    let mut out = build_base_name(config);
    if n == 1 {
        push_str(&mut out, ".mid");
    } else {
        push_str(&mut out, "_");
        push_decimal_padded(&mut out, (i + 1) as u64, 2);
        push_str(&mut out, ".mid");
    }
    out
}

/// Track name embedded in the file, such as "Am TwoLayer" or "Am TwoLayer 03".
pub open spec fn spec_track_name(config: MidiGenConfig, i: nat, n: nat) -> Seq<char> {
    let head = note_display_name(config.key_root as int % 12) + scale_suffix(config.minor) + " "@
        + lead_type_name(config.lead_type);
    if n == 1 {
        head
    } else {
        head + " "@ + decimal_padded(i + 1, 2)
    }
}

/// Builds the track name of variation `i` of `n`.
pub fn build_track_name(config: &MidiGenConfig, i: u64, n: u64) -> (r: String)
    requires
        n != 1 ==> i < u64::MAX,
    ensures
        r@ == spec_track_name(*config, i as nat, n as nat),
{
    let mut out = String::new();
    push_str(&mut out, note_display_str(config.key_root % 12));
    if config.minor {
        push_str(&mut out, "m");
    } else {
        push_str(&mut out, "");
    }
    push_str(&mut out, " ");
    push_str(&mut out, config.lead_type.short_name());
    if n != 1 {
        push_str(&mut out, " ");
        push_decimal_padded(&mut out, i + 1, 2);
    }
    assert(out@ =~= spec_track_name(*config, i as nat, n as nat));
    out
}

/// The track name embedded in variation `i` of `n`: the configuration's own
/// `name` when it has one, otherwise the name built from key and lead type.
pub open spec fn spec_embedded_name(config: MidiGenConfig, i: nat, n: nat) -> Seq<char> {
    match config.name {
        Some(s) => s@,
        None => spec_track_name(config, i, n),
    }
}

/// Builds the track name embedded in variation `i` of `n`.
pub fn embedded_name(config: &MidiGenConfig, i: u64, n: u64) -> (r: String)
    requires
        n != 1 ==> i < u64::MAX,
    ensures
        r@ == spec_embedded_name(*config, i as nat, n as nat),
{
    match &config.name {
        Some(s) => s.clone(),
        None => build_track_name(config, i, n),
    }
}

/// The chord list after `length_bars` is applied: the progression repeated to
/// `ceil(length_bars / bars_per_chord)` chords, or unchanged.
pub open spec fn spec_config_chords(config: MidiGenConfig) -> Seq<i8> {
    let chords = spec_resolve_chords(config);
    match config.length_bars {
        Some(total) => {
            let bpc = bars_per_chord_at_least_one(config);
            let needed = (total + bpc - 1) / bpc as int;
            if chords.len() > 0 && needed > 0 {
                Seq::new(needed as nat, |k: int| chords[k % chords.len() as int])
            } else {
                chords
            }
        },
        None => chords,
    }
}

/// `length_bars + bars_per_chord` fits in a `u32`.
pub open spec fn length_fits(config: MidiGenConfig) -> bool {
    config.length_bars matches Some(total) ==> total + bars_per_chord_at_least_one(config) <= u32::MAX
}

/// The configuration with its progression resolved to chord offsets that fill
/// `length_bars`.
pub fn resolve_config(config: &MidiGenConfig) -> (r: MidiGenConfig)
    requires
        length_fits(*config),
    ensures
        r.chords@ == spec_config_chords(*config),
        r.progression@.len() == 0,
        r.key_root == config.key_root,
        r.minor == config.minor,
        r.lead_type == config.lead_type,
        r.bpm == config.bpm,
        r.bars_per_chord == config.bars_per_chord,
        r.length_bars == config.length_bars,
        r.chromaticism == config.chromaticism,
        r.seed == config.seed,
        r.name == config.name,
        r.variations == config.variations,
{
    let chords = resolve_chords(config);
    let resolved_chords: Vec<i8> = match config.length_bars {
        Some(total) => {
            let bpc: u32 = if config.bars_per_chord == 0 { 1 } else { config.bars_per_chord as u32 };
            let needed = ((total + bpc - 1) / bpc) as usize;
            if chords.len() > 0 && needed > 0 {
                let mut out: Vec<i8> = Vec::new();
                let mut k: usize = 0;
                while k < needed
                    invariant
                        k <= needed,
                        chords.len() > 0,
                        out@ == Seq::new(k as nat, |j: int| chords@[j % chords.len() as int]),
                    decreases needed - k,
                {
                    out.push(chords[k % chords.len()]);
                    k = k + 1;
                    assert(out@ =~= Seq::new(k as nat, |j: int| chords@[j % chords.len() as int]));
                }
                out
            } else {
                chords
            }
        },
        None => chords,
    };
    let name = match &config.name {
        Some(n) => Some(n.clone()),
        None => None,
    };
    MidiGenConfig {
        key_root: config.key_root,
        minor: config.minor,
        lead_type: config.lead_type,
        chords: resolved_chords,
        progression: Vec::new(),
        bpm: config.bpm,
        bars_per_chord: config.bars_per_chord,
        length_bars: config.length_bars,
        chromaticism: config.chromaticism,
        seed: config.seed,
        name,
        variations: config.variations,
    }
}

// ---------------------------------------------------------------------------
// Scales and chords
// ---------------------------------------------------------------------------

pub open spec fn scale_intervals(minor: bool) -> Seq<u8> {
    if minor { seq![0u8, 2, 3, 5, 7, 8, 10] } else { seq![0u8, 2, 4, 5, 7, 9, 11] }
}

/// Pitch classes of the scale on `root`.
pub open spec fn spec_scale_pcs(root: u8, minor: bool) -> Seq<u8> {
    scale_intervals(minor).map_values(|i: u8| ((root + i) % 12) as u8)
}

/// Pitch classes of the natural minor (or major) scale on `root`.
pub fn build_scale_pcs(root: u8, minor: bool) -> (r: Vec<u8>)
    requires
        root as int + (if minor { 10int } else { 11int }) <= 255,
    ensures
        r@ == spec_scale_pcs(root, minor),
        r@.len() == 7,
{
    let intervals: [u8; 7] = if minor { [0, 2, 3, 5, 7, 8, 10] } else { [0, 2, 4, 5, 7, 9, 11] };
    let mut out: Vec<u8> = Vec::new();
    let mut i: usize = 0;
    assert(intervals@ == scale_intervals(minor));
    while i < 7
        invariant
            i <= 7,
            intervals@ == scale_intervals(minor),
            root as int + (if minor { 10int } else { 11int }) <= 255,
            out@ == scale_intervals(minor).take(i as int).map_values(|k: u8| ((root + k) % 12) as u8),
        decreases 7 - i,
    {
        assert(intervals[i as int] <= (if minor { 10u8 } else { 11u8 }));
        out.push((root + intervals[i]) % 12);
        i = i + 1;
        assert(out@ =~= scale_intervals(minor).take(i as int).map_values(
            |k: u8| ((root + k) % 12) as u8,
        ));
    }
    assert(scale_intervals(minor).take(7) =~= scale_intervals(minor));
    out
}

/// The notes `lo .. lo + k` whose pitch class is in `pcs`, ascending.
pub open spec fn notes_with_pcs(pcs: Seq<u8>, lo: int, k: nat) -> Seq<u8>
    decreases k,
{
    if k == 0 {
        Seq::empty()
    } else {
        let r = notes_with_pcs(pcs, lo, (k - 1) as nat);
        let n = lo + k - 1;
        if pcs.contains((n % 12) as u8) { r.push(n as u8) } else { r }
    }
}

/// All MIDI notes from `lo` to `hi` inclusive whose pitch class is in `pcs`.
pub open spec fn spec_notes_in_range(pcs: Seq<u8>, lo: u8, hi: u8) -> Seq<u8> {
    if hi < lo { Seq::empty() } else { notes_with_pcs(pcs, lo as int, (hi - lo + 1) as nat) }
}

fn contains_u8(v: &Vec<u8>, x: u8) -> (r: bool)
    ensures
        r == v@.contains(x),
{
    let mut i: usize = 0;
    while i < v.len()
        invariant
            i <= v.len(),
            forall|k: int| 0 <= k < i ==> v@[k] != x,
        decreases v.len() - i,
    {
        if v[i] == x {
            return true;
        }
        i = i + 1;
    }
    false
}

/// All MIDI notes whose pitch class is in `pcs`, between `lo` and `hi` inclusive.
pub fn scale_notes_in_range(pcs: &Vec<u8>, lo: u8, hi: u8) -> (r: Vec<u8>)
    ensures
        r@ == spec_notes_in_range(pcs@, lo, hi),
{
    let mut out: Vec<u8> = Vec::new();
    if hi < lo {
        return out;
    }
    let mut n: u16 = lo as u16;
    while n <= hi as u16
        invariant
            lo <= hi,
            lo <= n <= hi as u16 + 1,
            out@ == notes_with_pcs(pcs@, lo as int, (n - lo) as nat),
        decreases hi as u16 + 1 - n,
    {
        let pc = ((n % 12) as u8);
        if contains_u8(pcs, pc) {
            out.push(n as u8);
        }
        n = n + 1;
    }
    out
}

/// Index of the first element of `s` equal to `x` at or after `from`.
pub open spec fn first_index_from(s: Seq<u8>, x: u8, from: int) -> Option<int>
    decreases s.len() - from,
{
    if from < 0 || from >= s.len() {
        None
    } else if s[from] == x {
        Some(from)
    } else {
        first_index_from(s, x, from + 1)
    }
}

/// Pitch classes of the chord on `chord_pc`: the diatonic triad when the root is in
/// the scale, else root, minor and major third, and fifth.
pub open spec fn triad_pcs(pcs: Seq<u8>, chord_pc: u8) -> Seq<u8> {
    match first_index_from(pcs, chord_pc, 0) {
        Some(ri) => seq![pcs[ri], pcs[(ri + 2) % pcs.len() as int], pcs[(ri + 4) % pcs.len() as int]],
        None => seq![
            chord_pc,
            ((chord_pc + 3) % 12) as u8,
            ((chord_pc + 4) % 12) as u8,
            ((chord_pc + 7) % 12) as u8,
        ],
    }
}

pub proof fn lemma_first_index_from(s: Seq<u8>, x: u8, from: int)
    requires
        0 <= from,
    ensures
        first_index_from(s, x, from) matches Some(i) ==> from <= i < s.len() && s[i] == x,
        first_index_from(s, x, from) is None ==> forall|k: int| from <= k < s.len() ==> s[k] != x,
    decreases s.len() - from,
{
    if from < s.len() && s[from] != x {
        lemma_first_index_from(s, x, from + 1);
    }
}

fn triad_of(pcs: &Vec<u8>, chord_pc: u8) -> (r: Vec<u8>)
    requires
        pcs.len() <= usize::MAX - 4,
        first_index_from(pcs@, chord_pc, 0) is None ==> chord_pc <= 248,
    ensures
        r@ == triad_pcs(pcs@, chord_pc),
{
    let mut i: usize = 0;
    while i < pcs.len()
        invariant
            i <= pcs.len(),
            first_index_from(pcs@, chord_pc, i as int) == first_index_from(pcs@, chord_pc, 0),
            pcs.len() <= usize::MAX - 4,
        decreases pcs.len() - i,
    {
        if pcs[i] == chord_pc {
            let n = pcs.len();
            return vec![pcs[i], pcs[(i + 2) % n], pcs[(i + 4) % n]];
        }
        i = i + 1;
    }
    vec![chord_pc, (chord_pc + 3) % 12, (chord_pc + 4) % 12, (chord_pc + 7) % 12]
}

/// Chord tones (root, diatonic third and fifth) between `lo` and `hi` inclusive.
pub fn chord_tones_in_range(pcs: &Vec<u8>, chord_pc: u8, lo: u8, hi: u8) -> (r: Vec<u8>)
    requires
        pcs.len() <= usize::MAX - 4,
        first_index_from(pcs@, chord_pc, 0) is None ==> chord_pc <= 248,
    ensures
        r@ == spec_notes_in_range(triad_pcs(pcs@, chord_pc), lo, hi),
{
    let triad = triad_of(pcs, chord_pc);
    scale_notes_in_range(&triad, lo, hi)
}

/// Pitch class of the chord `offset` semitones above `key_root`.
pub open spec fn spec_chord_root_pc(key_root: u8, offset: i8) -> u8 {
    ((key_root as int + offset as int) % 12) as u8
}

pub fn chord_root_pc(key_root: u8, offset: i8) -> (r: u8)
    ensures
        r == spec_chord_root_pc(key_root, offset),
        r < 12,
{
    let s: i16 = key_root as i16 + offset as i16;
    let m: i16 = ((s % 12) + 12) % 12;
    m as u8
}

/// Lowest MIDI note for the bass arpeggio (octave 2 = MIDI 36–47).
pub fn bass_midi(pc: u8) -> (r: u8)
    requires
        pc <= 219,
    ensures
        r == pc + 36,
{
    pc + 36
}

pub open spec fn pitch_dist(a: u8, b: u8) -> int {
    if a >= b { a - b } else { b - a }
}

/// Index of the first element among the first `k` of `notes` nearest to `pitch`.
pub open spec fn nearest_index_upto(notes: Seq<u8>, pitch: u8, k: nat) -> int
    decreases k,
{
    if k <= 1 {
        0
    } else {
        let b = nearest_index_upto(notes, pitch, (k - 1) as nat);
        if pitch_dist(notes[k - 1], pitch) < pitch_dist(notes[b], pitch) { k - 1 } else { b }
    }
}

/// Index of the first note nearest to `pitch`; 0 for no notes.
pub open spec fn spec_nearest_idx(notes: Seq<u8>, pitch: u8) -> int {
    nearest_index_upto(notes, pitch, notes.len())
}

pub proof fn lemma_nearest_in_bounds(notes: Seq<u8>, pitch: u8, k: nat)
    requires
        1 <= k <= notes.len(),
    ensures
        0 <= nearest_index_upto(notes, pitch, k) < k,
    decreases k,
{
    if k > 1 {
        lemma_nearest_in_bounds(notes, pitch, (k - 1) as nat);
    }
}

fn abs_diff(a: u8, b: u8) -> (r: u8)
    ensures
        r == pitch_dist(a, b),
{
    if a >= b { a - b } else { b - a }
}

/// Index of the first note nearest to `pitch` (0 when there is none).
pub fn nearest_idx(notes: &Vec<u8>, pitch: u8) -> (r: usize)
    ensures
        r == spec_nearest_idx(notes@, pitch),
        notes.len() > 0 ==> r < notes.len(),
{
    if notes.len() == 0 {
        return 0;
    }
    let mut best: usize = 0;
    let mut k: usize = 1;
    while k < notes.len()
        invariant
            1 <= k <= notes.len(),
            best == nearest_index_upto(notes@, pitch, k as nat),
            best < k,
        decreases notes.len() - k,
    {
        if abs_diff(notes[k], pitch) < abs_diff(notes[best], pitch) {
            best = k;
        }
        k = k + 1;
    }
    best
}

/// The first element of `set` nearest to `target`; `target` when `set` is empty.
pub open spec fn spec_nearest_in_set(target: u8, set: Seq<u8>) -> u8 {
    if set.len() == 0 { target } else { set[spec_nearest_idx(set, target)] }
}

pub fn nearest_in_set(target: u8, set: &Vec<u8>) -> (r: u8)
    ensures
        r == spec_nearest_in_set(target, set@),
{
    if set.len() == 0 {
        target
    } else {
        let i = nearest_idx(set, target);
        set[i]
    }
}

/// Moves `steps` scale degrees from the note of `notes` nearest to `pitch`,
/// stopping at either end; `pitch` when `notes` is empty.
pub open spec fn spec_step_in_scale(notes: Seq<u8>, pitch: u8, steps: i8) -> u8 {
    if notes.len() == 0 {
        pitch
    } else {
        let idx = spec_nearest_idx(notes, pitch) + steps;
        let c = if idx < 0 { 0 } else if idx > notes.len() - 1 { notes.len() - 1 } else { idx };
        notes[c]
    }
}

pub fn step_in_scale(notes: &Vec<u8>, pitch: u8, steps: i8) -> (r: u8)
    requires
        notes.len() <= i32::MAX,
        spec_nearest_idx(notes@, pitch) + steps <= i32::MAX,
    ensures
        r == spec_step_in_scale(notes@, pitch, steps),
{
    if notes.len() == 0 {
        return pitch;
    }
    let idx = nearest_idx(notes, pitch);
    let moved: i32 = idx as i32 + steps as i32;
    let top: i32 = notes.len() as i32 - 1;
    let c: i32 = if moved < 0 { 0 } else if moved > top { top } else { moved };
    notes[c as usize]
}

/// MIDI key-signature value (negative = flats, positive = sharps) of the key.
pub open spec fn spec_key_sig_sf(root: u8, minor: bool) -> i8 {
    let major_root = if minor { (root + 3) % 12 } else { root as int };
    if major_root == 0 { 0 } else if major_root == 1 { 7 } else if major_root == 2 { 2 }
    else if major_root == 3 { -3i8 } else if major_root == 4 { 4 } else if major_root == 5 { -1i8 }
    else if major_root == 6 { -6i8 } else if major_root == 7 { 1 } else if major_root == 8 { -4i8 }
    else if major_root == 9 { 3 } else if major_root == 10 { -2i8 } else { 5 }
}

/// The key signature written for a key names that key by music theory: the
/// count of sharps (negative for flats) is at most seven either way, its major
/// tonic lies that many fifths above C (7·sf modulo 12) and is the key's root,
/// or for a minor key the root three semitones up; and the key name a reader
/// gives the signature in the key's mode is the root's note (D major, sf 2,
/// reads as "D major").
pub proof fn law_key_signature_names_key(root: u8, minor: bool)
    requires
        root < 12,
    ensures
        -7 <= spec_key_sig_sf(root, minor) <= 7,
        (7 * spec_key_sig_sf(root, minor)) % 12 == (if minor { (root + 3) % 12 } else { root as int }),
        note_name_pc(crate::midi::key_name(spec_key_sig_sf(root, minor) + 7, !minor)) == root,
{
    crate::midi::law_key_names_by_circle_of_fifths(spec_key_sig_sf(root, minor) + 7);
}

/// The key-signature value written for the key on `root`.
pub fn key_sig_sf(root: u8, minor: bool) -> (r: i8)
    requires
        if minor { root <= 252 } else { root < 12 },
    ensures
        r == spec_key_sig_sf(root, minor),
{
    let major_sf: [i8; 12] = [0, 7, 2, -3, 4, -1, -6, 1, -4, 3, -2, 5];
    let major_root = if minor { (root + 3) % 12 } else { root };
    major_sf[major_root as usize]
}

// ---------------------------------------------------------------------------
// Writing MIDI files
// ---------------------------------------------------------------------------

/// The groups of a variable-length quantity above the lowest, high bit set.
pub open spec fn vlq_high(w: nat) -> Seq<u8>
    decreases w,
{
    if w == 0 {
        Seq::empty()
    } else {
        vlq_high(w / 128) + seq![((w % 128) + 128) as u8]
    }
}

/// The variable-length encoding of `v`: seven bits per byte, most significant group
/// first, every byte but the last with its high bit set.
pub open spec fn vlq_bytes(v: nat) -> Seq<u8> {
    vlq_high(v / 128) + seq![(v % 128) as u8]
}

fn push_vlq_high(buf: &mut Vec<u8>, w: u32)
    ensures
        final(buf)@ == old(buf)@ + vlq_high(w as nat),
    decreases w,
{
    if w == 0 {
        assert(old(buf)@ + vlq_high(0) =~= old(buf)@);
        return;
    }
    push_vlq_high(buf, w / 128);
    buf.push(((w % 128) + 128) as u8);
    assert(buf@ =~= old(buf)@ + vlq_high(w as nat));
}

/// Appends the variable-length encoding of `val` (which must fit in 28 bits).
pub fn write_vlq(buf: &mut Vec<u8>, val: u32)
    requires
        val < 0x1000_0000,
    ensures
        final(buf)@ == old(buf)@ + vlq_bytes(val as nat),
{
    push_vlq_high(buf, val / 128);
    buf.push((val % 128) as u8);
    assert(buf@ =~= old(buf)@ + vlq_bytes(val as nat));
}

/// A note-on (`kind` 0) or note-off (`kind` 1) entry: tick, kind, pitch, velocity.
pub type OnOff = (u32, u8, u8, u8);

/// Entries are ordered by tick, then kind, then pitch.
pub open spec fn entry_le(a: OnOff, b: OnOff) -> bool {
    a.0 < b.0 || (a.0 == b.0 && (a.1 < b.1 || (a.1 == b.1 && a.2 <= b.2)))
}

/// Where `x` goes among the first `k` entries of `s`: after the last one not above it.
pub open spec fn insert_pos(s: Seq<OnOff>, x: OnOff, k: int) -> int
    decreases k,
{
    if k <= 0 {
        0
    } else if entry_le(s[k - 1], x) {
        k
    } else {
        insert_pos(s, x, k - 1)
    }
}

/// Stable insertion of `x` into `s`.
pub open spec fn insert_entry(s: Seq<OnOff>, x: OnOff) -> Seq<OnOff> {
    s.insert(insert_pos(s, x, s.len() as int), x)
}

/// The entries of `s` in stable order of (tick, kind, pitch).
pub open spec fn sort_entries(s: Seq<OnOff>) -> Seq<OnOff>
    decreases s.len(),
{
    if s.len() == 0 {
        s
    } else {
        insert_entry(sort_entries(s.drop_last()), s.last())
    }
}

pub proof fn lemma_insert_pos_range(s: Seq<OnOff>, x: OnOff, k: int)
    requires
        0 <= k <= s.len(),
    ensures
        0 <= insert_pos(s, x, k) <= k,
    decreases k,
{
    if k > 0 && !entry_le(s[k - 1], x) {
        lemma_insert_pos_range(s, x, k - 1);
    }
}

pub proof fn lemma_sort_len(s: Seq<OnOff>)
    ensures
        sort_entries(s).len() == s.len(),
    decreases s.len(),
{
    if s.len() > 0 {
        lemma_sort_len(s.drop_last());
        lemma_insert_pos_range(sort_entries(s.drop_last()), s.last(), s.len() - 1);
    }
}

/// Sorts entries by (tick, kind, pitch), keeping equal entries in their order.
pub fn sort_on_off(v: &Vec<OnOff>) -> (r: Vec<OnOff>)
    ensures
        r@ == sort_entries(v@),
{
    let mut out: Vec<OnOff> = Vec::new();
    let mut i: usize = 0;
    while i < v.len()
        invariant
            i <= v.len(),
            out@ == sort_entries(v@.take(i as int)),
            out.len() == i,
        decreases v.len() - i,
    {
        let x = v[i];
        let mut p: usize = out.len();
        while p > 0 && !((out[p - 1].0 < x.0) || (out[p - 1].0 == x.0 && (out[p - 1].1 < x.1 || (
        out[p - 1].1 == x.1 && out[p - 1].2 <= x.2))))
            invariant
                p <= out.len(),
                insert_pos(out@, x, p as int) == insert_pos(out@, x, out.len() as int),
            decreases p,
        {
            p = p - 1;
        }
        proof {
            lemma_insert_pos_range(out@, x, out.len() as int);
            assert(insert_pos(out@, x, p as int) == p);
            assert(v@.take((i + 1) as int).drop_last() =~= v@.take(i as int));
        }
        out.insert(p, x);
        i = i + 1;
    }
    assert(v@.take(v.len() as int) =~= v@);
    out
}

/// Tick at which an event's note-off falls (a zero length counts as one tick).
pub open spec fn off_tick(e: NoteEvent) -> int {
    e.tick + if e.dur == 0 { 1int } else { e.dur as int }
}

/// The note-on and note-off entries of `events`, two per event, in event order.
pub open spec fn entries_of(events: Seq<NoteEvent>) -> Seq<OnOff>
    decreases events.len(),
{
    if events.len() == 0 {
        Seq::empty()
    } else {
        let e = events.last();
        entries_of(events.drop_last()) + seq![(e.tick, 0u8, e.pitch, e.vel), (off_tick(e) as u32, 1u8, e.pitch, 0u8)]
    }
}

/// Every note-off tick fits in a `u32`.
pub open spec fn events_fit(events: Seq<NoteEvent>) -> bool {
    forall|i: int| 0 <= i < events.len() ==> off_tick(#[trigger] events[i]) <= u32::MAX
}

pub open spec fn prev_tick(es: Seq<OnOff>, k: int) -> u32 {
    if k <= 0 { 0 } else { es[k - 1].0 }
}

/// Ticks from the previous entry to entry `k` (0 where the tick goes back).
pub open spec fn entry_delta(es: Seq<OnOff>, k: int) -> nat {
    if es[k].0 >= prev_tick(es, k) { (es[k].0 - prev_tick(es, k)) as nat } else { 0 }
}

pub open spec fn min127(b: u8) -> u8 {
    if b > 127 { 127 } else { b }
}

/// The bytes of entry `k`: delta time, status, pitch and velocity.
pub open spec fn entry_bytes(es: Seq<OnOff>, k: int) -> Seq<u8> {
    let e = es[k];
    vlq_bytes(entry_delta(es, k)) + seq![if e.1 == 1 { 0x80u8 } else { 0x90u8 }, min127(e.2), min127(e.3)]
}

/// The bytes of the first `k` entries.
pub open spec fn entry_stream(es: Seq<OnOff>, k: nat) -> Seq<u8>
    decreases k,
{
    if k == 0 {
        Seq::empty()
    } else {
        entry_stream(es, (k - 1) as nat) + entry_bytes(es, k - 1)
    }
}

/// Every delta time fits the 28 bits a variable-length quantity is written with.
pub open spec fn deltas_fit(es: Seq<OnOff>) -> bool {
    forall|k: int| 0 <= k < es.len() ==> #[trigger] entry_delta(es, k) < 0x1000_0000
}

/// Microseconds per quarter note at the configured tempo.
pub open spec fn tempo_us_of(cfg: MidiGenConfig) -> u32 {
    (60_000_000int / (if cfg.bpm == 0 { 1int } else { cfg.bpm as int })) as u32
}

/// The key signature of `cfg` can be looked up.
pub open spec fn key_sig_ok(cfg: MidiGenConfig) -> bool {
    if cfg.minor { cfg.key_root <= 252 } else { cfg.key_root < 12 }
}

/// Track-name meta event.
pub open spec fn name_meta(name: Seq<u8>) -> Seq<u8> {
    vlq_bytes(0) + seq![0xFFu8, 0x03u8] + vlq_bytes(name.len()) + name
}

/// Set Tempo meta event (the three bytes of the tempo, higher bits dropped).
pub open spec fn tempo_meta(cfg: MidiGenConfig) -> Seq<u8> {
    let us = tempo_us_of(cfg);
    vlq_bytes(0) + seq![
        0xFFu8,
        0x51u8,
        0x03u8,
        ((us / 65536) % 256) as u8,
        ((us / 256) % 256) as u8,
        (us % 256) as u8,
    ]
}

/// 4/4 time-signature meta event.
pub open spec fn time_meta() -> Seq<u8> {
    vlq_bytes(0) + seq![0xFFu8, 0x58u8, 0x04u8, 4u8, 2u8, 24u8, 8u8]
}

/// Key-signature meta event.
pub open spec fn key_meta(cfg: MidiGenConfig) -> Seq<u8> {
    vlq_bytes(0) + seq![
        0xFFu8,
        0x59u8,
        0x02u8,
        spec_key_sig_sf(cfg.key_root, cfg.minor) as u8,
        if cfg.minor { 1u8 } else { 0u8 },
    ]
}

/// The meta events that open a generated track: name, tempo, 4/4 time, key.
pub open spec fn track_head(name: Seq<u8>, cfg: MidiGenConfig) -> Seq<u8> {
    name_meta(name) + tempo_meta(cfg) + time_meta() + key_meta(cfg)
}

/// The event data of a generated track.
pub open spec fn track_body(name: Seq<u8>, cfg: MidiGenConfig, events: Seq<NoteEvent>) -> Seq<u8> {
    let es = sort_entries(entries_of(events));
    track_head(name, cfg) + entry_stream(es, es.len()) + vlq_bytes(0) + seq![0xFFu8, 0x2Fu8, 0x00u8]
}

/// Big-endian bytes of a `u32`.
pub open spec fn u32_be(v: u32) -> Seq<u8> {
    seq![(v / 16777216) as u8, ((v / 65536) % 256) as u8, ((v / 256) % 256) as u8, (v % 256) as u8]
}

/// An `MTrk` chunk around `body` (its length field holds the length modulo 2^32).
pub open spec fn track_chunk(body: Seq<u8>) -> Seq<u8> {
    seq![0x4Du8, 0x54u8, 0x72u8, 0x6Bu8] + u32_be(body.len() as u32) + body
}

/// What `build_track` writes.
pub open spec fn spec_build_track(name: Seq<char>, cfg: MidiGenConfig, events: Seq<NoteEvent>) -> Seq<u8> {
    track_chunk(track_body(vstd::utf8::encode_utf8(name), cfg, events))
}

/// The header of a generated file: format 0, one track, 96 ticks per quarter note.
pub open spec fn file_header() -> Seq<u8> {
    seq![0x4Du8, 0x54u8, 0x68u8, 0x64u8, 0u8, 0u8, 0u8, 6u8, 0u8, 0u8, 0u8, 1u8, 0u8, 96u8]
}

/// What `build_midi_file` writes.
pub open spec fn spec_build_midi_file(name: Seq<char>, cfg: MidiGenConfig, events: Seq<NoteEvent>) -> Seq<u8> {
    file_header() + spec_build_track(name, cfg, events)
}

/// What `build_track` needs: a key it can look up, a name shorter than 2^28 bytes,
/// note-off ticks that fit a `u32` and delta times that fit 28 bits.
pub open spec fn track_writable(name: Seq<char>, cfg: MidiGenConfig, events: Seq<NoteEvent>) -> bool {
    &&& key_sig_ok(cfg)
    &&& vstd::utf8::encode_utf8(name).len() < 0x1000_0000
    &&& events_fit(events)
    &&& deltas_fit(sort_entries(entries_of(events)))
}

fn push_all(buf: &mut Vec<u8>, bytes: &[u8])
    ensures
        final(buf)@ == old(buf)@ + bytes@,
{
    let mut i: usize = 0;
    while i < bytes.len()
        invariant
            i <= bytes.len(),
            buf@ == old(buf)@ + bytes@.take(i as int),
        decreases bytes.len() - i,
    {
        buf.push(bytes[i]);
        i = i + 1;
        assert(buf@ =~= old(buf)@ + bytes@.take(i as int));
    }
    assert(bytes@.take(bytes.len() as int) =~= bytes@);
}

/// The note-on/note-off entries of `events`.
fn on_off_entries(events: &[NoteEvent]) -> (r: Vec<OnOff>)
    requires
        events_fit(events@),
    ensures
        r@ == entries_of(events@),
{
    let mut out: Vec<OnOff> = Vec::new();
    let mut i: usize = 0;
    while i < events.len()
        invariant
            i <= events.len(),
            events_fit(events@),
            out@ == entries_of(events@.take(i as int)),
        decreases events.len() - i,
    {
        let ev = events[i];
        assert(off_tick(events@[i as int]) <= u32::MAX);
        let d: u32 = if ev.dur == 0 { 1 } else { ev.dur };
        out.push((ev.tick, 0, ev.pitch, ev.vel));
        out.push((ev.tick + d, 1, ev.pitch, 0));
        proof {
            assert(events@.take((i + 1) as int).drop_last() =~= events@.take(i as int));
        }
        i = i + 1;
        assert(out@ =~= entries_of(events@.take(i as int)));
    }
    assert(events@.take(events.len() as int) =~= events@);
    out
}

fn write_name_meta(d: &mut Vec<u8>, name: &str)
    requires
        vstd::utf8::encode_utf8(name@).len() < 0x1000_0000,
    ensures
        final(d)@ == old(d)@ + name_meta(vstd::utf8::encode_utf8(name@)),
{
    write_vlq(d, 0);
    d.push(0xFF);
    d.push(0x03);
    let nb = name.as_bytes();
    write_vlq(d, nb.len() as u32);
    push_all(d, nb);
    assert(d@ =~= old(d)@ + name_meta(vstd::utf8::encode_utf8(name@)));
}

fn write_tempo_meta(d: &mut Vec<u8>, cfg: &MidiGenConfig)
    ensures
        final(d)@ == old(d)@ + tempo_meta(*cfg),
{
    write_vlq(d, 0);
    d.push(0xFF);
    d.push(0x51);
    d.push(0x03);
    let bpm: u32 = if cfg.bpm == 0 { 1 } else { cfg.bpm as u32 };
    let us: u32 = 60_000_000u32 / bpm;
    assert((us >> 16u32) as u8 == ((us / 65536) % 256) as u8) by (bit_vector);
    assert((us >> 8u32) as u8 == ((us / 256) % 256) as u8) by (bit_vector);
    assert(us as u8 == (us % 256) as u8) by (bit_vector);
    d.push((us >> 16u32) as u8);
    d.push((us >> 8u32) as u8);
    d.push(us as u8);
    assert(d@ =~= old(d)@ + tempo_meta(*cfg));
}

fn write_time_and_key_meta(d: &mut Vec<u8>, cfg: &MidiGenConfig)
    requires
        key_sig_ok(*cfg),
    ensures
        final(d)@ == old(d)@ + time_meta() + key_meta(*cfg),
{
    write_vlq(d, 0);
    d.push(0xFF);
    d.push(0x58);
    d.push(0x04);
    d.push(4);
    d.push(2);
    d.push(24);
    d.push(8);
    write_vlq(d, 0);
    let sf = key_sig_sf(cfg.key_root, cfg.minor);
    d.push(0xFF);
    d.push(0x59);
    d.push(0x02);
    d.push(sf as u8);
    d.push(if cfg.minor { 1u8 } else { 0u8 });
    assert(d@ =~= old(d)@ + time_meta() + key_meta(*cfg));
}

fn write_track_head(d: &mut Vec<u8>, name: &str, cfg: &MidiGenConfig)
    requires
        key_sig_ok(*cfg),
        vstd::utf8::encode_utf8(name@).len() < 0x1000_0000,
    ensures
        final(d)@ == old(d)@ + track_head(vstd::utf8::encode_utf8(name@), *cfg),
{
    write_name_meta(d, name);
    write_tempo_meta(d, cfg);
    write_time_and_key_meta(d, cfg);
    assert(d@ =~= old(d)@ + track_head(vstd::utf8::encode_utf8(name@), *cfg));
}

fn write_entries(d: &mut Vec<u8>, sorted: &Vec<OnOff>)
    requires
        deltas_fit(sorted@),
    ensures
        final(d)@ == old(d)@ + entry_stream(sorted@, sorted@.len()),
{
    let ghost es = sorted@;
    let mut prev: u32 = 0;
    let mut k: usize = 0;
    assert(d@ =~= old(d)@ + entry_stream(es, 0));
    while k < sorted.len()
        invariant
            k <= sorted.len(),
            es == sorted@,
            deltas_fit(es),
            prev == prev_tick(es, k as int),
            d@ == old(d)@ + entry_stream(es, k as nat),
        decreases sorted.len() - k,
    {
        let (tick, is_off, pitch, vel) = sorted[k];
        let delta = tick.saturating_sub(prev);
        assert(delta == entry_delta(es, k as int));
        write_vlq(d, delta);
        d.push(if is_off == 1 { 0x80u8 } else { 0x90u8 });
        d.push(if pitch > 127 { 127u8 } else { pitch });
        d.push(if vel > 127 { 127u8 } else { vel });
        prev = tick;
        k = k + 1;
        assert(d@ =~= old(d)@ + entry_stream(es, k as nat));
    }
}

fn push_u32_be(buf: &mut Vec<u8>, v: u32)
    ensures
        final(buf)@ == old(buf)@ + u32_be(v),
{
    assert((v >> 24u32) as u8 == (v / 16777216) as u8) by (bit_vector);
    assert((v >> 16u32) as u8 == ((v / 65536) % 256) as u8) by (bit_vector);
    assert((v >> 8u32) as u8 == ((v / 256) % 256) as u8) by (bit_vector);
    assert(v as u8 == (v % 256) as u8) by (bit_vector);
    buf.push((v >> 24u32) as u8);
    buf.push((v >> 16u32) as u8);
    buf.push((v >> 8u32) as u8);
    buf.push(v as u8);
    assert(buf@ =~= old(buf)@ + u32_be(v));
}

/// The MTrk chunk of a generated file: name, tempo, time and key signature, the
/// notes as note-on/note-off pairs in order of time, and the end-of-track event.
pub fn build_track(name: &str, cfg: &MidiGenConfig, events: &[NoteEvent]) -> (r: Vec<u8>)
    requires
        track_writable(name@, *cfg, events@),
    ensures
        r@ == spec_build_track(name@, *cfg, events@),
{
    let mut d: Vec<u8> = Vec::new();
    write_track_head(&mut d, name, cfg);
    let entries = on_off_entries(events);
    let sorted = sort_on_off(&entries);
    write_entries(&mut d, &sorted);
    write_vlq(&mut d, 0);
    d.push(0xFF);
    d.push(0x2F);
    d.push(0x00);
    assert(d@ =~= track_body(vstd::utf8::encode_utf8(name@), *cfg, events@));
    let mut track: Vec<u8> = Vec::new();
    track.push(0x4D);
    track.push(0x54);
    track.push(0x72);
    track.push(0x6B);
    push_u32_be(&mut track, d.len() as u32);
    push_all(&mut track, d.as_slice());
    assert(track@ =~= spec_build_track(name@, *cfg, events@));
    track
}

/// A complete single-track Standard MIDI File (format 0, 96 PPQN).
pub fn build_midi_file(name: &str, cfg: &MidiGenConfig, events: &[NoteEvent]) -> (r: Vec<u8>)
    requires
        track_writable(name@, *cfg, events@),
    ensures
        r@ == spec_build_midi_file(name@, *cfg, events@),
{
    let track = build_track(name, cfg, events);
    let mut buf: Vec<u8> = Vec::new();
    buf.push(0x4D);
    buf.push(0x54);
    buf.push(0x68);
    buf.push(0x64);
    buf.push(0);
    buf.push(0);
    buf.push(0);
    buf.push(6);
    buf.push(0);
    buf.push(0);
    buf.push(0);
    buf.push(1);
    buf.push(0);
    buf.push(96);
    push_all(&mut buf, track.as_slice());
    assert(buf@ =~= spec_build_midi_file(name@, *cfg, events@));
    buf
}

} // verus!
