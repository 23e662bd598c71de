//! Standard MIDI File reader: walks the `MThd` header and the `MTrk` chunks and
//! collects the metadata the library reports (format, track count, division,
//! tempo, time and key signature, note count, tick length, track names and the
//! channels in use).
use vstd::prelude::*;
use vstd::utf8::*;
use crate::text::{decimal, trim_ws};
use crate::midi_gen::note_name_pc;

verus! {

// ---------------------------------------------------------------------------
// Variable-length quantities
// ---------------------------------------------------------------------------

/// Shifts the low seven bits of `b` into `val` (bits shifted out of a `u32` are lost).
pub open spec fn vlq_push(val: u32, b: u8) -> u32 {
    (val << 7u32) | ((b & 0x7Fu8) as u32)
}

/// Reads a variable-length quantity from byte `i` on, having read `k` bytes of it
/// already: stops after a byte below 0x80, after five bytes, or at the end of `data`.
pub open spec fn vlq_scan(data: Seq<u8>, i: int, k: nat, val: u32) -> (u32, nat)
    decreases 5 - k,
{
    if k >= 5 || i < 0 || i >= data.len() {
        (val, k)
    } else {
        let v = vlq_push(val, data[i]);
        if data[i] < 128 || k + 1 > 4 {
            (v, k + 1)
        } else {
            vlq_scan(data, i + 1, k + 1, v)
        }
    }
}

/// The value of the variable-length quantity at `pos` and the number of bytes it uses.
pub open spec fn spec_read_var_len(data: Seq<u8>, pos: int) -> (u32, nat) {
    vlq_scan(data, pos, 0, 0)
}

pub proof fn lemma_vlq_scan_len(data: Seq<u8>, i: int, k: nat, val: u32)
    requires
        k <= 4,
        0 <= i,
    ensures
        vlq_scan(data, i, k, val).1 >= k,
        vlq_scan(data, i, k, val).1 <= 5,
        i < data.len() ==> vlq_scan(data, i, k, val).1 > k,
        vlq_scan(data, i, k, val).1 - k <= if data.len() > i { data.len() - i } else { 0 },
    decreases 5 - k,
{
    if i < data.len() {
        let v = vlq_push(val, data[i]);
        if data[i] < 128 || k + 1 > 4 {
        } else {
            lemma_vlq_scan_len(data, i + 1, k + 1, v);
        }
    }
}

/// Reads a MIDI variable-length quantity at `pos`; returns the value and the number
/// of bytes consumed (at most five; zero when `pos` is at or past the end).
pub fn read_var_len(data: &[u8], pos: usize) -> (r: (u32, usize))
    ensures
        (r.0, r.1 as nat) == spec_read_var_len(data@, pos as int),
        r.1 <= 5,
        pos < data.len() ==> r.1 >= 1,
        pos + r.1 <= data.len() || r.1 == 0,
{
    proof {
        lemma_vlq_scan_len(data@, pos as int, 0, 0);
    }
    let mut val: u32 = 0;
    let mut i: usize = pos;
    loop
        invariant
            pos <= i <= pos + 4,
            i == pos || i <= data.len(),
            vlq_scan(data@, i as int, (i - pos) as nat, val) == spec_read_var_len(data@, pos as int),
        decreases 5 - (i - pos),
    {
        if i >= data.len() {
            return (val, i - pos);
        }
        let b = data[i];
        let nv = (val << 7u32) | ((b & 0x7Fu8) as u32);
        assert(nv == vlq_push(val, b));
        assert((b & 0x80u8 == 0) == (b < 128)) by (bit_vector);
        val = nv;
        i = i + 1;
        if b & 0x80 == 0 {
            return (val, i - pos);
        }
        if i - pos > 4 {
            return (val, i - pos);
        }
    }
}

// ---------------------------------------------------------------------------
// The scan of one file, as a specification
// ---------------------------------------------------------------------------

/// The state carried through the events of a file.
pub struct ScanState {
    /// Read position within the current track.
    pub tp: int,
    /// Ticks elapsed in the current track.
    pub ticks: u32,
    /// Last channel status byte seen in the current track.
    pub running: u8,
    /// Note-on events with a non-zero velocity.
    pub notes: u32,
    /// Bit `c` is set once channel `c` has been used.
    pub mask: u16,
    /// Value of the last Set Tempo event (microseconds per quarter note).
    pub tempo_us: u32,
    /// Value of the last non-zero Set Tempo event.
    pub shown_tempo_us: u32,
    /// Numerator and power-of-two denominator of the last time signature.
    pub time_sig: Option<(u8, u8)>,
    /// Index into the key-name tables and whether the key is major.
    pub key_sig: Option<(int, bool)>,
    /// Non-empty, trimmed track names in file order.
    pub names: Seq<Seq<char>>,
    /// Set where the reader meets a fault (an arithmetic overflow or an
    /// out-of-range slice).
    pub fault: bool,
}

pub open spec fn be16(data: Seq<u8>, i: int) -> int {
    data[i] * 256 + data[i + 1]
}

pub open spec fn be24(data: Seq<u8>, i: int) -> int {
    data[i] * 65536 + data[i + 1] * 256 + data[i + 2]
}

pub open spec fn be32(data: Seq<u8>, i: int) -> int {
    data[i] * 16777216 + data[i + 1] * 65536 + data[i + 2] * 256 + data[i + 3]
}

pub open spec fn min_int(a: int, b: int) -> int {
    if a <= b { a } else { b }
}

/// The signed value of a key-signature byte.
pub open spec fn signed_byte(b: u8) -> int {
    if b < 128 { b as int } else { b as int - 256 }
}

/// Number of data bytes that follow a channel message of kind `msg`; `running`
/// tells whether the status byte was left out.
pub open spec fn data_len_of(msg: u8, running: bool) -> int {
    if msg == 0x80 || msg == 0xA0 || msg == 0xB0 || msg == 0xE0 || msg == 0x90 {
        2
    } else if msg == 0xC0 || msg == 0xD0 {
        1
    } else if running {
        1
    } else {
        2
    }
}

/// A channel message whose data bytes start at `tp`.
pub open spec fn channel_message(data: Seq<u8>, te: int, s: ScanState, status: u8, tp: int, running: bool) -> ScanState {
    let msg = status & 0xF0u8;
    let mask = s.mask | (1u16 << ((status & 0x0Fu8) as u16));
    let counts = msg == 0x90 && te - tp > 1 && data[tp + 1] > 0;
    if counts && s.notes == u32::MAX {
        ScanState { fault: true, ..s }
    } else {
        ScanState {
            tp: tp + data_len_of(msg, running),
            mask,
            notes: if counts { (s.notes + 1) as u32 } else { s.notes },
            ..s
        }
    }
}

/// A meta event of type `mt` whose payload is `data[start..me]`.
pub open spec fn meta_event(data: Seq<u8>, s: ScanState, mt: u8, start: int, me: int) -> ScanState {
    let s1 = if mt == 0x03 {
        if start > me {
            ScanState { fault: true, ..s }
        } else {
            let bytes = data.subrange(start, me);
            if valid_utf8(bytes) && trim_ws(decode_utf8(bytes)).len() > 0 {
                ScanState { names: s.names.push(trim_ws(decode_utf8(bytes))), ..s }
            } else {
                s
            }
        }
    } else if mt == 0x51 {
        if start > me {
            ScanState { fault: true, ..s }
        } else if me - start >= 3 {
            let t = be24(data, start) as u32;
            ScanState { tempo_us: t, shown_tempo_us: if t > 0 { t } else { s.shown_tempo_us }, ..s }
        } else {
            s
        }
    } else if mt == 0x58 {
        if start > me {
            ScanState { fault: true, ..s }
        } else if me - start >= 2 {
            if data[start + 1] >= 32 {
                ScanState { fault: true, ..s }
            } else {
                ScanState { time_sig: Some((data[start], data[start + 1])), ..s }
            }
        } else {
            s
        }
    } else if mt == 0x59 {
        if start > me {
            ScanState { fault: true, ..s }
        } else if me - start >= 2 {
            let b = data[start];
            if 121 <= b <= 127 {
                ScanState { fault: true, ..s }
            } else if 0 <= signed_byte(b) + 7 < 15 {
                ScanState { key_sig: Some((signed_byte(b) + 7, data[start + 1] == 0)), ..s }
            } else {
                s
            }
        } else {
            s
        }
    } else {
        s
    };
    ScanState { tp: me, ..s1 }
}

/// One pass of the event loop of a track that ends at `te`, starting at `s.tp < te`.
pub open spec fn event_step(data: Seq<u8>, te: int, s: ScanState) -> ScanState {
    let (delta, n) = spec_read_var_len(data, s.tp);
    let tp = s.tp + n;
    if s.ticks + delta > u32::MAX {
        ScanState { fault: true, ..s }
    } else {
        let s0 = ScanState { tp, ticks: (s.ticks + delta) as u32, ..s };
        if tp >= te {
            s0
        } else {
            let status = data[tp];
            if status == 0xFF {
                if tp + 1 >= te {
                    ScanState { tp: tp + 1, ..s0 }
                } else {
                    let mt = data[tp + 1];
                    let (ml, n2) = spec_read_var_len(data, tp + 2);
                    let start = tp + 2 + n2;
                    meta_event(data, s0, mt, start, min_int(start + ml, te))
                }
            } else if status == 0xF0 || status == 0xF7 {
                let (sl, n3) = spec_read_var_len(data, tp + 1);
                ScanState { tp: tp + 1 + n3 + sl, ..s0 }
            } else if status >= 128 {
                channel_message(data, te, ScanState { running: status, ..s0 }, status, tp + 1, false)
            } else {
                channel_message(data, te, s0, s0.running, tp, true)
            }
        }
    }
}

/// Positions past the end of the track all end the track alike; keep them at `te`.
pub open spec fn clamp_tp(te: int, s: ScanState) -> ScanState {
    if s.tp > te { ScanState { tp: te, ..s } } else { s }
}

/// Runs the event loop of a track ending at `te` until the end or a fault.
pub open spec fn track_loop(data: Seq<u8>, te: int, s: ScanState) -> ScanState
    decreases te - s.tp,
{
    if s.fault || s.tp >= te {
        s
    } else {
        let s2 = clamp_tp(te, event_step(data, te, s));
        if s2.tp <= s.tp {
            s2
        } else {
            track_loop(data, te, s2)
        }
    }
}

pub open spec fn is_mtrk(data: Seq<u8>, pos: int) -> bool {
    data[pos] == 0x4D && data[pos + 1] == 0x54 && data[pos + 2] == 0x72 && data[pos + 3] == 0x6B
}

pub open spec fn is_mthd(data: Seq<u8>) -> bool {
    data[0] == 0x4D && data[1] == 0x54 && data[2] == 0x68 && data[3] == 0x64
}

/// End of the track chunk at `pos`, cut at the end of the data.
pub open spec fn track_end_of(data: Seq<u8>, pos: int) -> int {
    min_int(pos + 8 + be32(data, pos + 4), data.len() as int)
}

/// Reads up to `remaining` track chunks from `pos`; returns the state and the
/// largest track length in ticks.
pub open spec fn tracks_loop(data: Seq<u8>, remaining: nat, pos: int, s: ScanState, total: u32) -> (ScanState, u32)
    decreases remaining,
{
    if remaining == 0 || s.fault || pos + 8 > data.len() || !is_mtrk(data, pos) {
        (s, total)
    } else {
        let te = track_end_of(data, pos);
        let r = track_loop(data, te, ScanState { tp: pos + 8, ticks: 0, running: 0, ..s });
        tracks_loop(data, (remaining - 1) as nat, te, r, if r.ticks > total { r.ticks } else { total })
    }
}

/// Number of set bits among the low `k` bits of `m`.
pub open spec fn bit_count(m: u16, k: nat) -> nat
    decreases k,
{
    if k == 0 {
        0
    } else {
        bit_count(m, (k - 1) as nat) + if (m >> ((k - 1) as u16)) & 1u16 == 1u16 { 1nat } else { 0nat }
    }
}

/// Key names by sharps/flats count + 7, for major and minor keys.
pub open spec fn key_name(idx: int, major: bool) -> Seq<char> {
    if major {
        if idx == 0 { "Cb"@ } else if idx == 1 { "Gb"@ } else if idx == 2 { "Db"@ }
        else if idx == 3 { "Ab"@ } else if idx == 4 { "Eb"@ } else if idx == 5 { "Bb"@ }
        else if idx == 6 { "F"@ } else if idx == 7 { "C"@ } else if idx == 8 { "G"@ }
        else if idx == 9 { "D"@ } else if idx == 10 { "A"@ } else if idx == 11 { "E"@ }
        else if idx == 12 { "B"@ } else if idx == 13 { "F#"@ } else { "C#"@ }
    } else {
        if idx == 0 { "Ab"@ } else if idx == 1 { "Eb"@ } else if idx == 2 { "Bb"@ }
        else if idx == 3 { "F"@ } else if idx == 4 { "C"@ } else if idx == 5 { "G"@ }
        else if idx == 6 { "D"@ } else if idx == 7 { "A"@ } else if idx == 8 { "E"@ }
        else if idx == 9 { "B"@ } else if idx == 10 { "F#"@ } else if idx == 11 { "C#"@ }
        else if idx == 12 { "G#"@ } else if idx == 13 { "D#"@ } else { "A#"@ }
    }
}

/// The natural letters in circle-of-fifths order: F C G D A E B.
pub open spec fn fifths_letter(i: int) -> char {
    if i == 0 {
        'F'
    } else if i == 1 {
        'C'
    } else if i == 2 {
        'G'
    } else if i == 3 {
        'D'
    } else if i == 4 {
        'A'
    } else if i == 5 {
        'E'
    } else {
        'B'
    }
}

/// The note `pos` fifths above F on the circle of fifths: its letter repeats
/// every seven fifths, flat below F, natural from F to B, sharp above B.
pub open spec fn fifths_name(pos: int) -> Seq<char> {
    let l = fifths_letter(pos % 7);
    if pos < 0 {
        seq![l, 'b']
    } else if pos < 7 {
        seq![l]
    } else {
        seq![l, '#']
    }
}

/// The key names follow the circle of fifths: a signature of `sf` sharps
/// (negative for flats, `idx == sf + 7`) has its major tonic `sf` fifths above
/// C, and its minor tonic a minor third lower, `sf` fifths above A. So the
/// major tonic's pitch class is 7·sf modulo 12 and the minor tonic's three
/// less; sf = -1 with a minor mode names D minor.
pub proof fn law_key_names_by_circle_of_fifths(idx: int)
    requires
        0 <= idx < 15,
    ensures
        key_name(idx, true) == fifths_name(idx - 7 + 1),
        key_name(idx, false) == fifths_name(idx - 7 + 4),
        note_name_pc(key_name(idx, true)) == (7 * (idx - 7)) % 12,
        note_name_pc(key_name(idx, false)) == (7 * (idx - 7) - 3) % 12,
{
    reveal_strlit("Cb");
    reveal_strlit("Gb");
    reveal_strlit("Db");
    reveal_strlit("Ab");
    reveal_strlit("Eb");
    reveal_strlit("Bb");
    reveal_strlit("F");
    reveal_strlit("C");
    reveal_strlit("G");
    reveal_strlit("D");
    reveal_strlit("A");
    reveal_strlit("E");
    reveal_strlit("B");
    reveal_strlit("F#");
    reveal_strlit("C#");
    reveal_strlit("G#");
    reveal_strlit("D#");
    reveal_strlit("A#");
    assert(key_name(idx, true) =~= fifths_name(idx - 7 + 1));
    assert(key_name(idx, false) =~= fifths_name(idx - 7 + 4));
}

/// Key signature text, such as "A minor"; empty when the file has none.
pub open spec fn key_text(k: Option<(int, bool)>) -> Seq<char> {
    match k {
        Some((idx, major)) => key_name(idx, major) + if major { " major"@ } else { " minor"@ },
        None => Seq::empty(),
    }
}

/// Time signature text, such as "3/4"; "4/4" when the file has none.
pub open spec fn time_sig_text(t: Option<(u8, u8)>) -> Seq<char> {
    match t {
        Some((nn, dd)) => decimal(nn as nat) + "/"@ + decimal((1u32 << (dd as u32)) as nat),
        None => "4/4"@,
    }
}

/// Metadata of a Standard MIDI File, as the specification sees it.
pub struct MidiSummarySpec {
    pub format: u16,
    pub track_count: u16,
    pub ppqn: u16,
    pub tempo_us: u32,
    pub shown_tempo_us: u32,
    pub time_signature: Seq<char>,
    pub key_signature: Seq<char>,
    pub note_count: u32,
    pub total_ticks: u32,
    pub track_names: Seq<Seq<char>>,
    pub channels_used: u16,
}

/// The state before the first track.
pub open spec fn initial_scan() -> ScanState {
    ScanState {
        tp: 0,
        ticks: 0,
        running: 0,
        notes: 0,
        mask: 0,
        tempo_us: 500000,
        shown_tempo_us: 500000,
        time_sig: None,
        key_sig: None,
        names: Seq::empty(),
        fault: false,
    }
}

/// What reading `data` gives: `Err(())` where the reader faults, `Ok(None)` where
/// `data` is no MIDI file (shorter than 14 bytes, no `MThd` magic, or a header
/// that runs past the end), and otherwise the metadata.
pub open spec fn spec_parse_midi(data: Seq<u8>) -> Result<Option<MidiSummarySpec>, ()> {
    if data.len() < 14 || !is_mthd(data) || data.len() < 8 + be32(data, 4) {
        Ok(None)
    } else {
        let division = be16(data, 12);
        let ppqn: u16 = if division < 0x8000 { division as u16 } else { 480 };
        let track_count = be16(data, 10) as u16;
        let (s, total) = tracks_loop(data, track_count as nat, 8 + be32(data, 4), initial_scan(), 0);
        if s.fault {
            Err(())
        } else {
            Ok(Some(MidiSummarySpec {
                format: be16(data, 8) as u16,
                track_count,
                ppqn,
                tempo_us: s.tempo_us,
                shown_tempo_us: s.shown_tempo_us,
                time_signature: time_sig_text(s.time_sig),
                key_signature: key_text(s.key_sig),
                note_count: s.notes,
                total_ticks: total,
                track_names: s.names,
                channels_used: bit_count(s.mask, 16) as u16,
            }))
        }
    }
}


// ---------------------------------------------------------------------------
// The scan, as code
// ---------------------------------------------------------------------------

/// Exec counterpart of [`ScanState`].
pub struct Scan {
    pub tp: usize,
    pub ticks: u32,
    pub running: u8,
    pub notes: u32,
    pub mask: u16,
    pub tempo_us: u32,
    pub shown_tempo_us: u32,
    pub time_sig: Option<(u8, u8)>,
    pub key_sig: Option<(u8, bool)>,
    pub names: Vec<String>,
    pub fault: bool,
}

impl View for Scan {
    type V = ScanState;

    open spec fn view(&self) -> ScanState {
        ScanState {
            tp: self.tp as int,
            ticks: self.ticks,
            running: self.running,
            notes: self.notes,
            mask: self.mask,
            tempo_us: self.tempo_us,
            shown_tempo_us: self.shown_tempo_us,
            time_sig: self.time_sig,
            key_sig: match self.key_sig {
                Some((i, m)) => Some((i as int, m)),
                None => None,
            },
            names: self.names@.map_values(|s: String| s@),
            fault: self.fault,
        }
    }
}

impl Scan {
    /// The recorded signatures are in range for rendering.
    pub open spec fn sigs_in_range(&self) -> bool {
        &&& self.time_sig matches Some((_, dd)) ==> dd < 32
        &&& self.key_sig matches Some((i, _)) ==> i < 15
    }
}

/// Handles a meta event of type `mt` with payload `data[start..me]`.
fn scan_meta(data: &[u8], st: &mut Scan, mt: u8, start: usize, me: usize)
    requires
        old(st).sigs_in_range(),
        me <= data.len(),
        start <= data.len(),
    ensures
        final(st).sigs_in_range(),
        final(st)@ == meta_event(data@, old(st)@, mt, start as int, me as int),
{
    if mt == 0x03 {
        if start > me {
            st.fault = true;
        } else {
            let bytes = vstd::slice::slice_subrange(data, start, me);
            match crate::text::utf8_decode(bytes) {
                Some(text) => {
                    let t = crate::text::trim(text);
                    if !t.is_empty() {
                        let ghost old_names = st.names@;
                        st.names.push(crate::text::owned(t));
                        assert(st.names@.map_values(|s: String| s@) =~= old_names.map_values(
                            |s: String| s@,
                        ).push(t@));
                    }
                },
                None => {},
            }
        }
    } else if mt == 0x51 {
        if start > me {
            st.fault = true;
        } else if me - start >= 3 {
            let t: u32 = ((data[start] as u32) << 16u32) | ((data[start + 1] as u32) << 8u32)
                | (data[start + 2] as u32);
            let b0 = data[start];
            let b1 = data[start + 1];
            let b2 = data[start + 2];
            assert(((b0 as u32) << 16u32) | ((b1 as u32) << 8u32) | (b2 as u32) == (b0 as u32)
                * 65536 + (b1 as u32) * 256 + (b2 as u32)) by (bit_vector);
            st.tempo_us = t;
            if t > 0 {
                st.shown_tempo_us = t;
            }
        }
    } else if mt == 0x58 {
        if start > me {
            st.fault = true;
        } else if me - start >= 2 {
            if data[start + 1] >= 32 {
                st.fault = true;
            } else {
                st.time_sig = Some((data[start], data[start + 1]));
            }
        }
    } else if mt == 0x59 {
        if start > me {
            st.fault = true;
        } else if me - start >= 2 {
            let b = data[start];
            if 121 <= b && b <= 127 {
                st.fault = true;
            } else if b <= 7 {
                st.key_sig = Some((b + 7, data[start + 1] == 0));
            } else if b >= 249 {
                st.key_sig = Some((b - 249, data[start + 1] == 0));
            }
        }
    }
    st.tp = me;
}

/// One pass of the event loop: reads one event of the track that ends at `te`.
fn scan_event(data: &[u8], te: usize, st: &mut Scan)
    requires
        old(st).sigs_in_range(),
        old(st).tp < te <= data.len(),
        !old(st).fault,
    ensures
        final(st).sigs_in_range(),
        final(st)@ == clamp_tp(te as int, event_step(data@, te as int, old(st)@)),
        final(st).fault || final(st).tp > old(st).tp,
        final(st).tp <= te,
{
    let (delta, n) = read_var_len(data, st.tp);
    if delta > u32::MAX - st.ticks {
        st.fault = true;
        return;
    }
    st.ticks = st.ticks + delta;
    let tp = st.tp + n;
    st.tp = tp;
    if tp >= te {
        st.tp = te;
        return;
    }
    let status = data[tp];
    if status == 0xFF {
        if tp + 1 >= te {
            st.tp = te;
            return;
        }
        let mt = data[tp + 1];
        let (ml, n2) = read_var_len(data, tp + 2);
        let start = tp + 2 + n2;
        let me: usize = if start >= te {
            te
        } else if ml as usize >= te - start {
            te
        } else {
            start + ml as usize
        };
        scan_meta(data, st, mt, start, me);
    } else if status == 0xF0 || status == 0xF7 {
        let (sl, n3) = read_var_len(data, tp + 1);
        let p = tp + 1 + n3;
        st.tp = if p >= te {
            te
        } else if sl as usize >= te - p {
            te
        } else {
            p + sl as usize
        };
    } else if status >= 128 {
        st.running = status;
        scan_channel(data, te, st, status, tp + 1, false);
    } else {
        let r = st.running;
        scan_channel(data, te, st, r, tp, true);
    }
}

/// Handles a channel message whose data bytes start at `tp`.
fn scan_channel(data: &[u8], te: usize, st: &mut Scan, status: u8, tp: usize, running: bool)
    requires
        old(st).sigs_in_range(),
        tp <= te <= data.len(),
        old(st).tp <= te,
    ensures
        final(st).sigs_in_range(),
        final(st)@ == clamp_tp(te as int, channel_message(data@, te as int, old(st)@, status, tp as int, running)),
        final(st).fault || final(st).tp > tp || final(st).tp == te,
        final(st).tp <= te,
{
    let msg = status & 0xF0;
    let ch = status & 0x0F;
    assert(status & 0x0Fu8 < 16) by (bit_vector);
    let mask = st.mask | (1u16 << (ch as u16));
    let counts = msg == 0x90 && te - tp > 1 && data[tp + 1] > 0;
    if counts && st.notes == u32::MAX {
        st.fault = true;
        return;
    }
    st.mask = mask;
    if counts {
        st.notes = st.notes + 1;
    }
    let k: usize = if msg == 0x80 || msg == 0xA0 || msg == 0xB0 || msg == 0xE0 || msg == 0x90 {
        2
    } else if msg == 0xC0 || msg == 0xD0 {
        1
    } else if running {
        1
    } else {
        2
    };
    st.tp = if k >= te - tp { te } else { tp + k };
}

/// Runs the event loop of the track that ends at `te`.
fn scan_track(data: &[u8], te: usize, st: &mut Scan)
    requires
        old(st).sigs_in_range(),
        te <= data.len(),
        old(st).tp <= te,
    ensures
        final(st).sigs_in_range(),
        final(st)@ == track_loop(data@, te as int, old(st)@),
        final(st).tp <= te,
{
    while st.tp < te && !st.fault
        invariant
            te <= data.len(),
            st.tp <= te,
            track_loop(data@, te as int, st@) == track_loop(data@, te as int, old(st)@),
            st.sigs_in_range(),
        decreases te - st.tp + (if st.fault { 0int } else { 1int }),
    {
        let ghost prev = st@;
        scan_event(data, te, st);
        assert(track_loop(data@, te as int, prev) == track_loop(data@, te as int, st@));
    }
}

fn be16_at(data: &[u8], i: usize) -> (r: u16)
    requires
        i + 1 < data.len(),
    ensures
        r as int == be16(data@, i as int),
{
    let a = data[i];
    let b = data[i + 1];
    assert(((a as u16) << 8u16) | (b as u16) == (a as u16) * 256 + (b as u16)) by (bit_vector);
    ((a as u16) << 8u16) | (b as u16)
}

fn be32_at(data: &[u8], i: usize) -> (r: u32)
    requires
        i + 3 < data.len(),
    ensures
        r as int == be32(data@, i as int),
{
    let a = data[i];
    let b = data[i + 1];
    let c = data[i + 2];
    let d = data[i + 3];
    assert(((a as u32) << 24u32) | ((b as u32) << 16u32) | ((c as u32) << 8u32) | (d as u32) == (a
        as u32) * 16777216 + (b as u32) * 65536 + (c as u32) * 256 + (d as u32)) by (bit_vector);
    ((a as u32) << 24u32) | ((b as u32) << 16u32) | ((c as u32) << 8u32) | (d as u32)
}

fn at_mtrk(data: &[u8], pos: usize) -> (r: bool)
    requires
        pos + 3 < data.len(),
    ensures
        r == is_mtrk(data@, pos as int),
{
    data[pos] == 0x4D && data[pos + 1] == 0x54 && data[pos + 2] == 0x72 && data[pos + 3] == 0x6B
}

/// Number of channels whose bit is set in `mask`.
fn count_channels(mask: u16) -> (r: u16)
    ensures
        r as nat == bit_count(mask, 16),
{
    let mut n: u16 = 0;
    let mut k: u16 = 0;
    while k < 16
        invariant
            k <= 16,
            n as nat == bit_count(mask, k as nat),
            n <= k,
        decreases 16 - k,
    {
        if (mask >> k) & 1 == 1 {
            n = n + 1;
        }
        k = k + 1;
    }
    n
}

fn key_name_str(idx: u8, major: bool) -> (r: &'static str)
    requires
        idx < 15,
    ensures
        r@ == key_name(idx as int, major),
{
    if major {
        if idx == 0 { "Cb" } else if idx == 1 { "Gb" } else if idx == 2 { "Db" }
        else if idx == 3 { "Ab" } else if idx == 4 { "Eb" } else if idx == 5 { "Bb" }
        else if idx == 6 { "F" } else if idx == 7 { "C" } else if idx == 8 { "G" }
        else if idx == 9 { "D" } else if idx == 10 { "A" } else if idx == 11 { "E" }
        else if idx == 12 { "B" } else if idx == 13 { "F#" } else { "C#" }
    } else {
        if idx == 0 { "Ab" } else if idx == 1 { "Eb" } else if idx == 2 { "Bb" }
        else if idx == 3 { "F" } else if idx == 4 { "C" } else if idx == 5 { "G" }
        else if idx == 6 { "D" } else if idx == 7 { "A" } else if idx == 8 { "E" }
        else if idx == 9 { "B" } else if idx == 10 { "F#" } else if idx == 11 { "C#" }
        else if idx == 12 { "G#" } else if idx == 13 { "D#" } else { "A#" }
    }
}

fn key_string(k: Option<(u8, bool)>) -> (r: String)
    requires
        k matches Some((i, _)) ==> i < 15,
    ensures
        r@ == key_text(match k {
            Some((i, m)) => Some((i as int, m)),
            None => None,
        }),
{
    let mut out = String::new();
    match k {
        Some((idx, major)) => {
            crate::text::push_str(&mut out, key_name_str(idx, major));
            if major {
                crate::text::push_str(&mut out, " major");
            } else {
                crate::text::push_str(&mut out, " minor");
            }
        },
        None => {},
    }
    out
}

fn time_sig_string(t: Option<(u8, u8)>) -> (r: String)
    requires
        t matches Some((_, dd)) ==> dd < 32,
    ensures
        r@ == time_sig_text(t),
{
    let mut out = String::new();
    match t {
        Some((nn, dd)) => {
            crate::text::push_decimal(&mut out, nn as u64);
            crate::text::push_str(&mut out, "/");
            let denom: u32 = 1u32 << (dd as u32);
            crate::text::push_decimal(&mut out, denom as u64);
        },
        None => {
            crate::text::push_str(&mut out, "4/4");
        },
    }
    out
}

/// Metadata of a Standard MIDI File. Tempo and length are kept in the file's own
/// integer units: `shown_tempo_us` gives the tempo as 60 000 000 / it beats per
/// minute, and `total_ticks`, `ppqn` and `tempo_us` give the length.
pub struct MidiSummary {
    pub format: u16,
    pub track_count: u16,
    pub ppqn: u16,
    pub tempo_us: u32,
    pub shown_tempo_us: u32,
    pub time_signature: String,
    pub key_signature: String,
    pub note_count: u32,
    pub total_ticks: u32,
    pub track_names: Vec<String>,
    pub channels_used: u16,
}

impl View for MidiSummary {
    type V = MidiSummarySpec;

    open spec fn view(&self) -> MidiSummarySpec {
        MidiSummarySpec {
            format: self.format,
            track_count: self.track_count,
            ppqn: self.ppqn,
            tempo_us: self.tempo_us,
            shown_tempo_us: self.shown_tempo_us,
            time_signature: self.time_signature@,
            key_signature: self.key_signature@,
            note_count: self.note_count,
            total_ticks: self.total_ticks,
            track_names: self.track_names@.map_values(|s: String| s@),
            channels_used: self.channels_used,
        }
    }
}

/// The reader met a fault: a tick count or note count that overflows, a meta event
/// whose payload starts past the end of its track, a time-signature exponent of 32
/// or more, or a key-signature byte between 121 and 127.
pub struct MidiFault;

pub open spec fn parse_result_view(r: Result<Option<MidiSummary>, MidiFault>) -> Result<Option<MidiSummarySpec>, ()> {
    match r {
        Ok(Some(m)) => Ok(Some(m@)),
        Ok(None) => Ok(None),
        Err(_) => Err(()),
    }
}

/// Reads the metadata of a Standard MIDI File held in `data`.
pub fn parse_midi_bytes(data: &[u8]) -> (r: Result<Option<MidiSummary>, MidiFault>)
    ensures
        parse_result_view(r) == spec_parse_midi(data@),
{
    if data.len() < 14 {
        return Ok(None);
    }
    if !(data[0] == 0x4D && data[1] == 0x54 && data[2] == 0x68 && data[3] == 0x64) {
        return Ok(None);
    }
    let header_len = be32_at(data, 4);
    if header_len as usize > data.len() - 8 {
        return Ok(None);
    }
    let format = be16_at(data, 8);
    let track_count = be16_at(data, 10);
    let division = be16_at(data, 12);
    let ppqn: u16 = if division < 0x8000 { division } else { 480 };
    let mut st = Scan {
        tp: 0,
        ticks: 0,
        running: 0,
        notes: 0,
        mask: 0,
        tempo_us: 500000,
        shown_tempo_us: 500000,
        time_sig: None,
        key_sig: None,
        names: Vec::new(),
        fault: false,
    };
    assert(st@.names =~= Seq::<Seq<char>>::empty());
    let mut total: u32 = 0;
    let mut pos: usize = 8 + header_len as usize;
    let mut k: u16 = 0;
    let ghost start = 8 + be32(data@, 4);
    while k < track_count && !st.fault && data.len() - pos >= 8 && at_mtrk(data, pos)
        invariant
            k <= track_count,
            pos <= data.len(),
            tracks_loop(data@, track_count as nat, start, initial_scan(), 0) == tracks_loop(
                data@,
                (track_count - k) as nat,
                pos as int,
                st@,
                total,
            ),
            st.sigs_in_range(),
        decreases track_count - k,
    {
        let tl = be32_at(data, pos + 4);
        let te: usize = if tl as usize >= data.len() - (pos + 8) {
            data.len()
        } else {
            pos + 8 + tl as usize
        };
        st.tp = pos + 8;
        st.ticks = 0;
        st.running = 0;
        scan_track(data, te, &mut st);
        if st.ticks > total {
            total = st.ticks;
        }
        pos = te;
        k = k + 1;
    }
    if st.fault {
        return Err(MidiFault);
    }
    let time_signature = time_sig_string(st.time_sig);
    let key_signature = key_string(st.key_sig);
    let channels_used = count_channels(st.mask);
    Ok(Some(MidiSummary {
        format,
        track_count,
        ppqn,
        tempo_us: st.tempo_us,
        shown_tempo_us: st.shown_tempo_us,
        time_signature,
        key_signature,
        note_count: st.notes,
        total_ticks: total,
        track_names: st.names,
        channels_used,
    }))
}

} // verus!
