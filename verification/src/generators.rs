//! The lead pattern generators: each fills the chord progression of a resolved
//! configuration with note events, drawing its choices from a seeded `StdRng`.
//! The notes of each lead type are stated exactly as a function of the plan,
//! the scale and the seed (`lead_events`), every draw named by the seed and
//! the draws before it; so one configuration and seed always give one file.
//! Every note starts and ends inside the piece (plus at most one bar of
//! ring-out) and has a positive length, and each lead type keeps its own
//! velocities and density of notes per bar (`lead_shape`).
use vstd::prelude::*;

use crate::midi_gen::{
    bass_midi, build_midi_file, build_scale_pcs, build_track_name, chord_root_pc, spec_chord_root_pc, chord_tones_in_range,
    deltas_fit, entries_of, entry_delta, events_fit, insert_entry, insert_pos, lead_type_name, length_fits,
    nearest_in_set, note_display_name, notes_with_pcs, off_tick, resolve_config, scale_notes_in_range, scale_suffix,
    sort_entries, spec_build_midi_file, spec_config_chords, spec_nearest_idx, spec_nearest_in_set, spec_notes_in_range, spec_scale_pcs,
    spec_step_in_scale, spec_track_name, spec_embedded_name, embedded_name, step_in_scale, track_writable, validate, LeadType, MidiGenConfig, NoteEvent,
    OnOff,
};
use crate::random::{answer, below, below_u8, between, chance, seeded, Draws};
use crate::text::{decimal, decimal_padded, lemma_decimal_len_le, pow10};
use vstd::utf8::encode_utf8;
use crate::midi::{spec_parse_midi, MidiSummarySpec};
use crate::roundtrip::{expected_summary, law_generated_file_reads_back};

verus! {

/// Sixteenth note in ticks.
pub const S: u32 = 24;
/// Eighth note.
pub const E: u32 = 48;
/// Dotted eighth.
pub const DE: u32 = 72;
/// One 4/4 bar.
pub const BAR: u32 = 384;
/// Long step of a swung pair.
pub const LONG: u32 = 42;
/// Short step of a swung pair.
pub const SHORT: u32 = 18;
/// Quarter note.
pub const Q: u32 = 96;
/// Half note.
pub const H: u32 = 192;
/// Thirty-second note.
pub const T: u32 = 12;

/// Ticks of the piece: one bar per chord and bar of the chord.
pub open spec fn piece_ticks(cfg: MidiGenConfig) -> int {
    cfg.chords@.len() * cfg.bars_per_chord * BAR
}

/// Every note ends by `end` and has a positive length.
pub open spec fn notes_end_by(events: Seq<NoteEvent>, end: int) -> bool {
    forall|i: int| 0 <= i < events.len() ==> #[trigger] events[i].tick + events[i].dur <= end && events[i].dur > 0
}

/// What the generators need of their input: a seven-note scale of pitch
/// classes, at least one bar per chord, and a piece whose last tick, plus one
/// bar of ring-out, stays below 2^28 (the reach of a MIDI delta time).
pub open spec fn ready(cfg: MidiGenConfig, pcs: Seq<u8>) -> bool {
    &&& pcs.len() == 7
    &&& forall|i: int| 0 <= i < 7 ==> #[trigger] pcs[i] < 12
    &&& cfg.bars_per_chord >= 1
    &&& piece_ticks(cfg) + BAR < 0x1000_0000
}

/// Bars of the piece: `bars_per_chord` for each chord.
pub open spec fn piece_bars(cfg: MidiGenConfig) -> int {
    cfg.chords@.len() * cfg.bars_per_chord
}

/// The requests a seeded generator has answered.
pub type Reqs = Seq<(u8, u64, u64)>;

/// A note at `tick` with pitch `pitch`, velocity `vel` and length `dur`.
pub open spec fn note(tick: int, pitch: u8, vel: u8, dur: u32) -> NoteEvent {
    NoteEvent { tick: tick as u32, pitch, vel, dur }
}

/// What the lead generators read of a configuration: key, chord offsets, bars
/// per chord and chromaticism.
pub struct Plan {
    pub key_root: u8,
    pub chords: Seq<i8>,
    pub bpc: nat,
    pub chromaticism: u8,
}

/// The plan of a resolved configuration.
pub open spec fn plan_of(cfg: MidiGenConfig) -> Plan {
    Plan { key_root: cfg.key_root, chords: cfg.chords@, bpc: cfg.bars_per_chord as nat, chromaticism: cfg.chromaticism }
}

/// The plan a configuration resolves to: its chords after `length_bars`.
pub open spec fn resolved_plan(config: MidiGenConfig) -> Plan {
    Plan {
        key_root: config.key_root,
        chords: spec_config_chords(config),
        bpc: config.bars_per_chord as nat,
        chromaticism: config.chromaticism,
    }
}

/// Root pitch class of chord `ci`.
pub open spec fn chord_pc(pl: Plan, ci: int) -> u8 {
    spec_chord_root_pc(pl.key_root, pl.chords[ci])
}

/// First tick of bar `bar` of chord `ci`.
pub open spec fn bar_tick(pl: Plan, ci: int, bar: int) -> int {
    (ci * pl.bpc + bar) * BAR
}

/// The answer to a `between(lo, hi)` request, as the value drawn.
pub open spec fn between_answer(seed: u64, rq: Reqs, lo: int, hi: int) -> int {
    answer(seed, rq, (2u8, (lo + 128) as u64, (hi + 128) as u64)) - 128
}

/// The requests after a `between(lo, hi)` request.
pub open spec fn between_req(rq: Reqs, lo: int, hi: int) -> Reqs {
    rq.push((2u8, (lo + 128) as u64, (hi + 128) as u64))
}

/// The answer to a `below(n)` request.
pub open spec fn below_answer(seed: u64, rq: Reqs, n: int) -> int {
    answer(seed, rq, (0u8, n as u64, 0u64)) as int
}

/// The requests after a `below(n)` request.
pub open spec fn below_req(rq: Reqs, n: int) -> Reqs {
    rq.push((0u8, n as u64, 0u64))
}

/// The answer to a `below_u8(n)` request.
pub open spec fn below_u8_answer(seed: u64, rq: Reqs, n: int) -> int {
    answer(seed, rq, (1u8, n as u64, 0u64)) as int
}

/// The requests after a `below_u8(n)` request.
pub open spec fn below_u8_req(rq: Reqs, n: int) -> Reqs {
    rq.push((1u8, n as u64, 0u64))
}

/// The answer to a `chance(num, den)` request.
pub open spec fn chance_answer(seed: u64, rq: Reqs, num: int, den: int) -> bool {
    answer(seed, rq, (3u8, num as u64, den as u64)) != 0
}

/// The requests after a `chance(num, den)` request.
pub open spec fn chance_req(rq: Reqs, num: int, den: int) -> Reqs {
    rq.push((3u8, num as u64, den as u64))
}

/// Every note is played at velocity `v`.
pub open spec fn all_vel(events: Seq<NoteEvent>, v: u8) -> bool {
    forall|i: int| 0 <= i < events.len() ==> #[trigger] events[i].vel == v
}

/// Every note lasts `d` ticks.
pub open spec fn all_dur(events: Seq<NoteEvent>, d: u32) -> bool {
    forall|i: int| 0 <= i < events.len() ==> #[trigger] events[i].dur == d
}

/// Every note is played at a velocity from `lo` to `hi`.
pub open spec fn vels_within(events: Seq<NoteEvent>, lo: u8, hi: u8) -> bool {
    forall|i: int| 0 <= i < events.len() ==> lo <= #[trigger] events[i].vel <= hi
}

/// What each lead type lays over the piece, whatever the random draws: its
/// velocities, the register its pitches stay in, how many notes it plays (per
/// bar of the piece, `piece_bars`) and, for the leads on a fixed grid, how long
/// each note lasts.
pub open spec fn lead_shape(lt: LeadType, events: Seq<NoteEvent>, cfg: MidiGenConfig) -> bool {
    shape_over(lt, events, cfg.chords@.len() as int, cfg.bars_per_chord as int)
}

/// What a configuration's lead lays over its resolved chords: `lead_shape` for
/// the progression after `length_bars` is applied.
pub open spec fn config_shape(events: Seq<NoteEvent>, config: MidiGenConfig) -> bool {
    shape_over(config.lead_type, events, spec_config_chords(config).len() as int, config.bars_per_chord as int)
}

/// The velocities, note count and note lengths of lead type `lt` over `chords`
/// chords of `bpc` bars each.
pub open spec fn shape_over(lt: LeadType, events: Seq<NoteEvent>, chords: int, bpc: int) -> bool {
    let b = chords * bpc;
    let n = events.len();
    match lt {
        LeadType::TwoLayer => {
            &&& all_vel(events, 104)
            &&& pitches_within(events, 36, 88)
            &&& n == 24 * b
        },
        LeadType::Zigzag => {
            &&& all_vel(events, 122)
            &&& all_dur(events, S)
            &&& pitches_within(events, 36, 89)
            &&& n == 16 * b
        },
        LeadType::Bounce => {
            &&& all_vel(events, 122)
            &&& pitches_within(events, 36, 89)
            &&& n == 12 * b
        },
        LeadType::Cell => {
            &&& all_vel(events, 122)
            &&& pitches_within(events, 36, 85)
            &&& n == 16 * b
        },
        LeadType::Shuffle => {
            &&& all_vel(events, 122)
            &&& pitches_within(events, 36, 80)
            &&& n == 21 * b
        },
        LeadType::ChordArp => {
            &&& all_vel(events, 100)
            &&& pitches_within(events, 36, 81)
            &&& n == 16 * b
        },
        LeadType::GatedStab => {
            &&& all_vel(events, 120)
            &&& pitches_within(events, 36, 81)
            &&& n >= 12 * b
        },
        LeadType::PadChord => {
            &&& all_vel(events, 100)
            &&& pitches_within(events, 36, 79)
            &&& 2 * b <= n <= 7 * b
        },
        LeadType::DeepBass => {
            &&& vels_within(events, 90, 100)
            &&& pitches_within(events, 36, 55)
            &&& chords <= n <= 2 * b
        },
        LeadType::SubBass => {
            &&& all_vel(events, 110)
            &&& all_dur(events, S)
            &&& pitches_within(events, 36, 60)
            &&& (n == 16 * b || n == 12 * b)
        },
        LeadType::Progressive => {
            &&& all_vel(events, 105)
            &&& all_dur(events, E)
            &&& pitches_within(events, 36, 79)
            &&& 16 * b <= n <= 56 * b
        },
        LeadType::Trill => {
            &&& all_vel(events, 110)
            &&& all_dur(events, T)
            &&& pitches_within(events, 60, 84)
            &&& n == 32 * b
        },
        LeadType::SlowMelody => {
            &&& all_vel(events, 100)
            &&& pitches_within(events, 59, 82)
            &&& b <= n <= 4 * b
        },
        LeadType::ChordPluck => {
            &&& all_vel(events, 108)
            &&& all_dur(events, S)
            &&& pitches_within(events, 36, 79)
            &&& n >= 32 * b
        },
        LeadType::PianoChord => {
            &&& vels_within(events, 85, 100)
            &&& pitches_within(events, 36, 84)
            &&& n >= 3 * b
        },
        LeadType::Unison => {
            &&& vels_within(events, 95, 105)
            &&& pitches_within(events, 36, 104)
            &&& 24 * b <= n <= 40 * b
        },
    }
}

proof fn lemma_next_chord(ci: int, bpc: int)
    ensures
        (ci + 1) * bpc == ci * bpc + bpc,
        0 * bpc == 0,
{
    assert((ci + 1) * bpc == ci * bpc + bpc) by (nonlinear_arith);
}

proof fn lemma_slot(ci: int, n: int, bar: int, bpc: int)
    requires
        0 <= ci < n,
        0 <= bar < bpc,
    ensures
        (ci * bpc + bar + 1) * 384 <= n * bpc * 384,
        0 <= ci * bpc + bar,
        ci <= ci * bpc,
{
    assert(ci <= ci * bpc) by (nonlinear_arith)
        requires
            0 <= ci,
            1 <= bpc,
    ;
    assert((ci * bpc + bar + 1) <= n * bpc) by (nonlinear_arith)
        requires
            0 <= ci < n,
            0 <= bar < bpc,
    ;
    assert(0 <= ci * bpc) by (nonlinear_arith)
        requires
            0 <= ci,
            0 <= bpc,
    ;
}

/// Start tick of bar `bar` of chord `ci`.
fn bar_start(cfg: &MidiGenConfig, ci: usize, bar: u32) -> (t: u32)
    requires
        ci < cfg.chords@.len(),
        bar < cfg.bars_per_chord,
        piece_ticks(*cfg) + BAR < 0x1000_0000,
    ensures
        t == (ci * cfg.bars_per_chord + bar) * BAR,
        t + BAR <= piece_ticks(*cfg),
{
    proof {
        lemma_slot(ci as int, cfg.chords@.len() as int, bar as int, cfg.bars_per_chord as int);
    }
    let bpc = cfg.bars_per_chord as u32;
    assert((ci * bpc + bar) * 384 < 0x1000_0000);
    (ci as u32 * bpc + bar) * BAR
}

/// Appends a note that ends by `end`.
fn push_note(events: &mut Vec<NoteEvent>, tick: u32, pitch: u8, vel: u8, dur: u32, Ghost(end): Ghost<int>)
    requires
        notes_end_by(old(events)@, end),
        tick + dur <= end,
        dur > 0,
    ensures
        notes_end_by(final(events)@, end),
        final(events)@ == old(events)@.push(NoteEvent { tick, pitch, vel, dur }),
{
    events.push(NoteEvent { tick, pitch, vel, dur });
    assert(events@.last() == NoteEvent { tick, pitch, vel, dur });
}

proof fn lemma_notes_len(pcs: Seq<u8>, lo: int, k: nat)
    ensures
        notes_with_pcs(pcs, lo, k).len() <= k,
    decreases k,
{
    if k > 0 {
        lemma_notes_len(pcs, lo, (k - 1) as nat);
    }
}

proof fn lemma_range_len(pcs: Seq<u8>, lo: u8, hi: u8)
    ensures
        spec_notes_in_range(pcs, lo, hi).len() <= 256,
{
    if hi >= lo {
        lemma_notes_len(pcs, lo as int, (hi - lo + 1) as nat);
    }
}

/// Every note of `s` is from `lo` to `hi`.
pub open spec fn within(s: Seq<u8>, lo: int, hi: int) -> bool {
    forall|i: int| 0 <= i < s.len() ==> lo <= #[trigger] s[i] <= hi
}

/// Every note event's pitch is from `lo` to `hi`.
pub open spec fn pitches_within(events: Seq<NoteEvent>, lo: int, hi: int) -> bool {
    forall|i: int| 0 <= i < events.len() ==> lo <= #[trigger] events[i].pitch <= hi
}

proof fn lemma_notes_bounds(pcs: Seq<u8>, lo: int, k: nat)
    requires
        0 <= lo,
        lo + k <= 256,
    ensures
        within(notes_with_pcs(pcs, lo, k), lo, lo + k - 1),
    decreases k,
{
    if k > 0 {
        lemma_notes_bounds(pcs, lo, (k - 1) as nat);
    }
}

/// The notes of a range lie in it.
proof fn lemma_range_within(pcs: Seq<u8>, lo: u8, hi: u8)
    ensures
        within(spec_notes_in_range(pcs, lo, hi), lo as int, hi as int),
{
    if hi >= lo {
        lemma_notes_bounds(pcs, lo as int, (hi - lo + 1) as nat);
    }
}

/// The notes of `pcs` between `lo` and `hi`, a list of at most 256 notes.
fn notes_between(pcs: &Vec<u8>, lo: u8, hi: u8) -> (r: Vec<u8>)
    ensures
        r@ == spec_notes_in_range(pcs@, lo, hi),
        r.len() <= 256,
        within(r@, lo as int, hi as int),
{
    proof {
        lemma_range_len(pcs@, lo, hi);
        lemma_range_within(pcs@, lo, hi);
    }
    scale_notes_in_range(pcs, lo, hi)
}

/// The chord tones of the chord on `cpc` between `lo` and `hi`.
fn tones_between(pcs: &Vec<u8>, cpc: u8, lo: u8, hi: u8) -> (r: Vec<u8>)
    requires
        pcs.len() == 7,
        cpc < 12,
    ensures
        r.len() <= 256,
        r@ == spec_notes_in_range(crate::midi_gen::triad_pcs(pcs@, cpc), lo, hi),
        within(r@, lo as int, hi as int),
{
    let r = chord_tones_in_range(pcs, cpc, lo, hi);
    proof {
        lemma_range_len(crate::midi_gen::triad_pcs(pcs@, cpc), lo, hi);
        lemma_range_within(crate::midi_gen::triad_pcs(pcs@, cpc), lo, hi);
    }
    r
}

proof fn lemma_nearest_below(notes: Seq<u8>, pitch: u8)
    requires
        notes.len() > 0,
    ensures
        0 <= spec_nearest_idx(notes, pitch) < notes.len(),
{
    crate::midi_gen::lemma_nearest_in_bounds(notes, pitch, notes.len());
}

/// `step_in_scale` on a list of at most 256 notes.
fn step(notes: &Vec<u8>, pitch: u8, steps: i8) -> (r: u8)
    requires
        notes.len() <= 256,
    ensures
        r == spec_step_in_scale(notes@, pitch, steps),
        forall|lo: int, hi: int|
            #[trigger] within(notes@, lo, hi) && (lo <= pitch <= hi || notes@.len() > 0) ==> lo <= r <= hi,
{
    proof {
        if notes.len() > 0 {
            lemma_nearest_below(notes@, pitch);
        }
    }
    step_in_scale(notes, pitch, steps)
}

/// `nearest_in_set`, which gives a note of `set`, or `target` when `set` is empty.
fn nearest(target: u8, set: &Vec<u8>) -> (r: u8)
    ensures
        r == spec_nearest_in_set(target, set@),
        forall|lo: int, hi: int|
            #[trigger] within(set@, lo, hi) && (lo <= target <= hi || set@.len() > 0) ==> lo <= r <= hi,
{
    proof {
        if set.len() > 0 {
            lemma_nearest_below(set@, target);
        }
    }
    nearest_in_set(target, set)
}

// ----- SubBass ---------------------------------------------------

/// The five sub-bass patterns: 0 the root, 1 its octave, 2 the fifth, 3 a rest.
pub open spec fn sub_bass_table(k: int) -> Seq<u8> {
    if k == 0 {
        seq![0u8, 0, 1, 0, 0, 1, 0, 0, 1, 0, 0, 1, 0, 0, 1, 0]
    } else if k == 1 {
        seq![0u8, 0, 0, 1, 0, 0, 1, 0, 0, 0, 0, 1, 0, 1, 0, 0]
    } else if k == 2 {
        seq![0u8, 1, 0, 1, 0, 0, 1, 0, 1, 0, 1, 0, 0, 1, 0, 1]
    } else if k == 3 {
        seq![0u8, 0, 2, 0, 0, 0, 1, 0, 0, 2, 0, 0, 1, 0, 0, 2]
    } else {
        seq![0u8, 3, 0, 0, 1, 3, 0, 0, 0, 3, 1, 0, 0, 3, 0, 1]
    }
}

/// How many of the first `i` steps of a pattern sound (are not a rest).
pub open spec fn sounding(s: Seq<u8>, i: nat) -> nat
    decreases i,
{
    if i == 0 {
        0
    } else {
        sounding(s, (i - 1) as nat) + if s[i - 1] != 3 { 1nat } else { 0nat }
    }
}

proof fn lemma_sub_bass_sounding(k: int)
    requires
        0 <= k < 5,
    ensures
        sounding(sub_bass_table(k), 16) == (if k == 4 { 12nat } else { 16nat }),
{
    reveal_with_fuel(sounding, 17);
}

/// The first `i` steps of a sub-bass bar at tick `t`: a sixteenth on each step
/// that is not a rest, on the root, its octave or the fifth.
pub open spec fn sub_bass_steps(t: int, pat: Seq<u8>, p: (u8, u8, u8), i: nat) -> Seq<NoteEvent>
    decreases i,
{
    if i == 0 {
        Seq::empty()
    } else {
        let prev = sub_bass_steps(t, pat, p, (i - 1) as nat);
        let v = pat[i - 1];
        if v == 3 {
            prev
        } else {
            let pitch = if v == 1 { p.1 } else if v == 2 { p.2 } else { p.0 };
            prev.push(note(t + (i - 1) * 24, pitch, 110, S))
        }
    }
}

/// The pitches of chord `ci` of the sub-bass lead: root, octave and fifth.
pub open spec fn sub_bass_pitches(pl: Plan, pcs: Seq<u8>, ci: int) -> (u8, u8, u8) {
    let root = (chord_pc(pl, ci) + 36) as u8;
    (root, (root + 12) as u8, spec_step_in_scale(spec_notes_in_range(pcs, 36, 60), root, 4))
}

/// The first `k` bars of chord `ci` of the sub-bass lead.
pub open spec fn sub_bass_bars(pl: Plan, pcs: Seq<u8>, pat: Seq<u8>, ci: int, k: nat) -> Seq<NoteEvent>
    decreases k,
{
    if k == 0 {
        Seq::empty()
    } else {
        sub_bass_bars(pl, pcs, pat, ci, (k - 1) as nat) + sub_bass_steps(
            bar_tick(pl, ci, k - 1),
            pat,
            sub_bass_pitches(pl, pcs, ci),
            16,
        )
    }
}

/// The first `n` chords of the sub-bass lead on pattern `pat`.
pub open spec fn sub_bass_chords(pl: Plan, pcs: Seq<u8>, pat: Seq<u8>, n: nat) -> Seq<NoteEvent>
    decreases n,
{
    if n == 0 {
        Seq::empty()
    } else {
        sub_bass_chords(pl, pcs, pat, (n - 1) as nat) + sub_bass_bars(pl, pcs, pat, n - 1, pl.bpc)
    }
}

/// The sub-bass lead: one pattern drawn for the whole piece, and the requests
/// after that draw.
pub open spec fn sub_bass_events(pl: Plan, pcs: Seq<u8>, seed: u64, rq: Reqs) -> (Seq<NoteEvent>, Reqs) {
    let pat = sub_bass_table(below_answer(seed, rq, 5));
    (sub_bass_chords(pl, pcs, pat, pl.chords.len()), below_req(rq, 5))
}

fn sub_bass_pattern(k: usize) -> (r: [u8; 16])
    requires
        k < 5,
    ensures
        r@ == sub_bass_table(k as int),
{
    if k == 0 {
        [0, 0, 1, 0, 0, 1, 0, 0, 1, 0, 0, 1, 0, 0, 1, 0]
    } else if k == 1 {
        [0, 0, 0, 1, 0, 0, 1, 0, 0, 0, 0, 1, 0, 1, 0, 0]
    } else if k == 2 {
        [0, 1, 0, 1, 0, 0, 1, 0, 1, 0, 1, 0, 0, 1, 0, 1]
    } else if k == 3 {
        [0, 0, 2, 0, 0, 0, 1, 0, 0, 2, 0, 0, 1, 0, 0, 2]
    } else {
        [0, 3, 0, 0, 1, 3, 0, 0, 0, 3, 1, 0, 0, 3, 0, 1]
    }
}

/// Fast monophonic sixteenths on the root, its octave and fifth, one of five
/// patterns for the whole piece (3 marks a rest).
fn gen_sub_bass(cfg: &MidiGenConfig, pcs: &Vec<u8>, rng: &mut Draws) -> (r: Vec<NoteEvent>)
    requires
        ready(*cfg, pcs@),
    ensures
        notes_end_by(r@, piece_ticks(*cfg) + BAR),
        lead_shape(LeadType::SubBass, r@, *cfg),
        final(rng).seed() == old(rng).seed(),
        (r@, final(rng).requests()) == sub_bass_events(plan_of(*cfg), pcs@, old(rng).seed(), old(rng).requests()),
{
    let ghost seed = rng.seed();
    let ghost rq0 = rng.requests();
    let vel = 110u8;
    let bpc = cfg.bars_per_chord as u32;
    let mut events: Vec<NoteEvent> = Vec::new();
    let ghost end = piece_ticks(*cfg) + BAR;
    let k = below(rng, 5);
    let pat = sub_bass_pattern(k);
    let ghost per = sounding(pat@, 16) as int;
    proof {
        lemma_sub_bass_sounding(k as int);
        lemma_next_chord(0, bpc as int);
    }
    let mut ci: usize = 0;
    while ci < cfg.chords.len()
        invariant
            ready(*cfg, pcs@),
            bpc == cfg.bars_per_chord,
            ci <= cfg.chords.len(),
            end == piece_ticks(*cfg) + BAR,
            notes_end_by(events@, end),
            vel == 110,
            all_vel(events@, vel),
            all_dur(events@, S),
            pitches_within(events@, 36, 60),
            per == sounding(pat@, 16),
            per == 16 || per == 12,
            events@.len() == per * (ci * bpc),
            pat@ == sub_bass_table(below_answer(seed, rq0, 5)),
            events@ == sub_bass_chords(plan_of(*cfg), pcs@, pat@, ci as nat),
        decreases cfg.chords.len() - ci,
    {
        let cpc = chord_root_pc(cfg.key_root, cfg.chords[ci]);
        let root = cpc + 36;
        let root_hi = root + 12;
        let scale = notes_between(pcs, 36, 60);
        let fifth = step(&scale, root, 4);
        let ghost ev0 = events@;
        assert(sub_bass_pitches(plan_of(*cfg), pcs@, ci as int) == (root, root_hi, fifth));
        let mut bar: u32 = 0;
        while bar < bpc
            invariant
                ready(*cfg, pcs@),
                bpc == cfg.bars_per_chord,
                ci < cfg.chords.len(),
                bar <= bpc,
                end == piece_ticks(*cfg) + BAR,
                notes_end_by(events@, end),
                vel == 110,
                all_vel(events@, vel),
                all_dur(events@, S),
                pitches_within(events@, 36, 60),
                36 <= root <= 47,
                root_hi == root + 12,
                36 <= fifth <= 60,
                per == sounding(pat@, 16),
                events@.len() == per * (ci * bpc + bar),
                sub_bass_pitches(plan_of(*cfg), pcs@, ci as int) == (root, root_hi, fifth),
                events@ == ev0 + sub_bass_bars(plan_of(*cfg), pcs@, pat@, ci as int, bar as nat),
            decreases bpc - bar,
        {
            let t = bar_start(cfg, ci, bar);
            let ghost base = events@.len() as int;
            let ghost evb = events@;
            let mut i: u32 = 0;
            while i < 16
                invariant
                    i <= 16,
                    end < 0x1000_0000,
                    t + BAR <= end - BAR,
                    notes_end_by(events@, end),
                    vel == 110,
                    all_vel(events@, vel),
                    all_dur(events@, S),
                    pitches_within(events@, 36, 60),
                    36 <= root <= 47,
                    root_hi == root + 12,
                    36 <= fifth <= 60,
                    events@.len() == base + sounding(pat@, i as nat),
                    events@ == evb + sub_bass_steps(t as int, pat@, (root, root_hi, fifth), i as nat),
                decreases 16 - i,
            {
                let voice = pat[i as usize];
                if voice != 3 {
                    let pitch = if voice == 0 {
                        root
                    } else if voice == 1 {
                        root_hi
                    } else if voice == 2 {
                        fifth
                    } else {
                        root
                    };
                    push_note(&mut events, t + i * S, pitch, vel, S, Ghost(end));
                }
                assert(events@ =~= evb + sub_bass_steps(t as int, pat@, (root, root_hi, fifth), (i + 1) as nat));
                i = i + 1;
            }
            assert(t == bar_tick(plan_of(*cfg), ci as int, bar as int));
            assert(events@ =~= ev0 + sub_bass_bars(plan_of(*cfg), pcs@, pat@, ci as int, (bar + 1) as nat));
            proof {
                let x = ci * bpc + bar;
                assert(per * (x + 1) == per * x + per) by (nonlinear_arith);
            }
            bar = bar + 1;
        }
        proof {
            lemma_next_chord(ci as int, bpc as int);
        }
        assert(events@ =~= sub_bass_chords(plan_of(*cfg), pcs@, pat@, (ci + 1) as nat));
        ci = ci + 1;
    }
    events
}

// ----- Small list helpers ----------------------------------------

fn has_note(v: &Vec<u8>, x: u8) -> (r: bool)
    ensures
        r == v@.contains(x),
{
    let mut i: usize = 0;
    while i < v.len()
        invariant
            i <= v.len(),
            forall|k: int| 0 <= k < i ==> v@[k] != x,
        decreases v.len() - i,
    {
        if v[i] == x {
            return true;
        }
        i = i + 1;
    }
    false
}

/// Ascending order.
pub open spec fn ascending(s: Seq<u8>) -> bool {
    forall|i: int, j: int| 0 <= i < j < s.len() ==> s[i] <= s[j]
}

/// The first index from `p` on whose note is above `x` (or the length).
pub open spec fn first_above(s: Seq<u8>, x: u8, p: nat) -> nat
    decreases s.len() - p,
{
    if p < s.len() && s[p as int] <= x { first_above(s, x, p + 1) } else { p }
}

/// `v` sorted by inserting each note after the notes not above it.
pub open spec fn insertion_sorted(v: Seq<u8>) -> Seq<u8>
    decreases v.len(),
{
    if v.len() == 0 {
        Seq::empty()
    } else {
        let s = insertion_sorted(v.drop_last());
        s.insert(first_above(s, v.last(), 0) as int, v.last())
    }
}

/// `v` with each run of equal notes kept once.
pub open spec fn deduped(v: Seq<u8>) -> Seq<u8>
    decreases v.len(),
{
    if v.len() == 0 {
        Seq::empty()
    } else {
        let r = deduped(v.drop_last());
        if r.len() == 0 || r.last() != v.last() { r.push(v.last()) } else { r }
    }
}

/// `<[u8]>::sort`: the same notes in ascending order.
fn sort_notes(v: &Vec<u8>) -> (r: Vec<u8>)
    ensures
        r@ == insertion_sorted(v@),
        ascending(r@),
        r@.to_multiset() =~= v@.to_multiset(),
        r@.len() == v@.len(),
        forall|lo: int, hi: int| #[trigger] within(v@, lo, hi) ==> within(r@, lo, hi),
{
    let mut out: Vec<u8> = Vec::new();
    let mut i: usize = 0;
    assert(v@.take(0) =~= out@);
    while i < v.len()
        invariant
            i <= v.len(),
            ascending(out@),
            out@.to_multiset() =~= v@.take(i as int).to_multiset(),
            out@ == insertion_sorted(v@.take(i as int)),
        decreases v.len() - i,
    {
        let x = v[i];
        let mut p: usize = 0;
        while p < out.len() && out[p] <= x
            invariant
                p <= out.len(),
                forall|k: int| 0 <= k < p ==> out@[k] <= x,
                first_above(out@, x, p as nat) == first_above(out@, x, 0),
            decreases out.len() - p,
        {
            p = p + 1;
        }
        let ghost before = out@;
        assert(v@.take(i + 1).drop_last() =~= v@.take(i as int));
        out.insert(p, x);
        proof {
            assert(v@.take(i + 1) =~= v@.take(i as int).push(x));
            assert(out@ == before.insert(p as int, x));
            vstd::seq_lib::to_multiset_insert(before, p as int, x);
            vstd::seq_lib::to_multiset_build(v@.take(i as int), x);
            assert forall|a: int, b: int| 0 <= a < b < out@.len() implies out@[a] <= out@[b] by {
                if b < p {
                } else if b == p {
                    assert(out@[a] == before[a]);
                } else if a < p {
                    assert(out@[b] == before[b - 1]);
                    if p < before.len() {
                        assert(before[p as int] > x);
                    }
                } else if a == p {
                    assert(out@[b] == before[b - 1]);
                    assert(before[p as int] > x);
                } else {
                    assert(out@[a] == before[a - 1]);
                    assert(out@[b] == before[b - 1]);
                }
            }
        }
        i = i + 1;
    }
    assert(v@.take(i as int) =~= v@);
    proof {
        vstd::seq_lib::to_multiset_len(out@);
        vstd::seq_lib::to_multiset_len(v@);
        assert forall|lo: int, hi: int| #[trigger] within(v@, lo, hi) implies within(out@, lo, hi) by {
            assert forall|k: int| 0 <= k < out@.len() implies lo <= #[trigger] out@[k] <= hi by {
                let x = out@[k];
                vstd::seq_lib::to_multiset_contains(out@, x);
                vstd::seq_lib::to_multiset_contains(v@, x);
                assert(out@.contains(x));
                let j = choose|j: int| 0 <= j < v@.len() && v@[j] == x;
                assert(lo <= v@[j] <= hi);
            }
        }
    }
    out
}

/// Strictly ascending order.
pub open spec fn strictly_ascending(s: Seq<u8>) -> bool {
    forall|i: int, j: int| 0 <= i < j < s.len() ==> s[i] < s[j]
}

/// `Vec::dedup` on an ascending list: each note once.
fn dedup_notes(v: &Vec<u8>) -> (r: Vec<u8>)
    requires
        ascending(v@),
    ensures
        strictly_ascending(r@),
        r@ == deduped(v@),
        forall|x: u8| r@.contains(x) <==> v@.contains(x),
        forall|lo: int, hi: int| #[trigger] within(v@, lo, hi) ==> within(r@, lo, hi),
{
    let mut out: Vec<u8> = Vec::new();
    let mut i: usize = 0;
    while i < v.len()
        invariant
            ascending(v@),
            i <= v.len(),
            strictly_ascending(out@),
            forall|x: u8| out@.contains(x) <==> v@.take(i as int).contains(x),
            out@.len() <= i,
            i > 0 ==> out@.len() > 0 && out@.last() == v@[i - 1],
            out@ == deduped(v@.take(i as int)),
        decreases v.len() - i,
    {
        let x = v[i];
        let ghost before = out@;
        assert(v@.take(i + 1).drop_last() =~= v@.take(i as int));
        if out.len() == 0 || out[out.len() - 1] != x {
            out.push(x);
        }
        proof {
            let t0 = v@.take(i as int);
            let t1 = v@.take(i + 1);
            assert(t1 =~= t0.push(x));
            if before.len() == 0 || before.last() != x {
                assert(out@ == before.push(x));
            } else {
                assert(out@ == before);
            }
            assert(forall|y: u8| before.contains(y) <==> t0.contains(y));
            assert forall|y: u8| out@.contains(y) <==> t1.contains(y) by {
                if t1.contains(y) {
                    let k = choose|k: int| 0 <= k < t1.len() && #[trigger] t1[k] == y;
                    if k < i {
                        assert(t0[k] == y);
                        assert(t0.contains(y));
                        let m = choose|m: int| 0 <= m < before.len() && #[trigger] before[m] == y;
                        assert(out@[m] == y);
                    } else {
                        assert(y == x);
                        assert(out@[out@.len() - 1] == x);
                    }
                }
                if out@.contains(y) {
                    let k = choose|k: int| 0 <= k < out@.len() && #[trigger] out@[k] == y;
                    if k < before.len() {
                        assert(before[k] == y);
                        assert(before.contains(y));
                        let m = choose|m: int| 0 <= m < t0.len() && #[trigger] t0[m] == y;
                        assert(t1[m] == y);
                    } else {
                        assert(y == x);
                        assert(t1[i as int] == x);
                    }
                }
            }
            if before.len() > 0 && before.last() != x {
                assert forall|a: int, b: int| 0 <= a < b < out@.len() implies out@[a] < out@[b] by {
                    if b == out@.len() - 1 {
                        assert(before[a] <= before.last());
                        assert(v@[i - 1] <= x);
                    }
                }
            }
        }
        i = i + 1;
    }
    assert(v@.take(i as int) =~= v@);
    proof {
        assert forall|lo: int, hi: int| #[trigger] within(v@, lo, hi) implies within(out@, lo, hi) by {
            assert forall|k: int| 0 <= k < out@.len() implies lo <= #[trigger] out@[k] <= hi by {
                let x = out@[k];
                assert(out@.contains(x));
                assert(v@.contains(x));
                let j = choose|j: int| 0 <= j < v@.len() && v@[j] == x;
                assert(lo <= v@[j] <= hi);
            }
        }
    }
    out
}

proof fn lemma_notes_nonempty(pcs: Seq<u8>, lo: int, k: nat, j: int)
    requires
        0 <= j < k,
        0 <= lo + j <= 255,
        pcs.contains(((lo + j) % 12) as u8),
    ensures
        notes_with_pcs(pcs, lo, k).len() > 0,
    decreases k,
{
    if j < k - 1 {
        lemma_notes_nonempty(pcs, lo, (k - 1) as nat, j);
    }
}

/// Twelve or more consecutive notes hold a note of every scale degree, so the
/// scale of `pcs` has a note from `lo` to `hi`.
proof fn lemma_scale_nonempty(pcs: Seq<u8>, lo: u8, hi: u8)
    requires
        pcs.len() > 0,
        pcs[0] < 12,
        lo + 11 <= hi,
    ensures
        spec_notes_in_range(pcs, lo, hi).len() > 0,
{
    let j: int = (pcs[0] + 12 - lo % 12) % 12;
    assert((lo + j) % 12 == pcs[0]);
    assert(pcs.contains(((lo + j) % 12) as u8)) by {
        assert(pcs[0] == ((lo + j) % 12) as u8);
    }
    lemma_notes_nonempty(pcs, lo as int, (hi - lo + 1) as nat, j);
}

/// Twelve or more consecutive notes hold every chord tone, so the chord on `cpc`
/// has a tone from `lo` to `lo + 11`.
proof fn lemma_tones_nonempty(pcs: Seq<u8>, cpc: u8, lo: u8, hi: u8)
    requires
        cpc < 12,
        lo % 12 == 0,
        lo + 11 <= hi,
    ensures
        spec_notes_in_range(crate::midi_gen::triad_pcs(pcs, cpc), lo, hi).len() > 0,
{
    let tri = crate::midi_gen::triad_pcs(pcs, cpc);
    crate::midi_gen::lemma_first_index_from(pcs, cpc, 0);
    assert(tri.contains(cpc)) by {
        assert(tri[0] == cpc);
    }
    assert(((lo + cpc) % 12) as u8 == cpc);
    lemma_notes_nonempty(tri, lo as int, (hi - lo + 1) as nat, cpc as int);
}

// ----- TwoLayer and Unison ---------------------------------------

/// The five bass octave patterns of the two-layer and unison leads (offsets
/// 0, 12 or 24 over sixteen steps).
pub open spec fn bass_table(k: int) -> Seq<u8> {
    if k == 0 {
        seq![0u8, 12, 24, 0, 12, 0, 12, 24, 0, 12, 0, 12, 0, 12, 24, 0]
    } else if k == 1 {
        seq![0u8, 12, 0, 24, 12, 24, 0, 12, 0, 12, 0, 24, 12, 0, 12, 24]
    } else if k == 2 {
        seq![0u8, 24, 12, 0, 12, 0, 24, 12, 0, 24, 12, 0, 12, 0, 24, 0]
    } else if k == 3 {
        seq![0u8, 12, 0, 12, 24, 0, 12, 0, 12, 24, 0, 12, 0, 12, 0, 24]
    } else {
        seq![0u8, 12, 24, 12, 0, 12, 0, 24, 12, 0, 12, 24, 0, 24, 12, 0]
    }
}

/// One of five bass octave patterns (offsets 0, 12 or 24 over sixteen steps).
fn random_bass_pattern(rng: &mut Draws) -> (r: [u8; 16])
    ensures
        forall|i: int| 0 <= i < 16 ==> r@[i] <= 24,
        r@ == bass_table(below_answer(old(rng).seed(), old(rng).requests(), 5)),
        final(rng).seed() == old(rng).seed(),
        final(rng).requests() == below_req(old(rng).requests(), 5),
{
    let k = below(rng, 5);
    if k == 0 {
        [0, 12, 24, 0, 12, 0, 12, 24, 0, 12, 0, 12, 0, 12, 24, 0]
    } else if k == 1 {
        [0, 12, 0, 24, 12, 24, 0, 12, 0, 12, 0, 24, 12, 0, 12, 24]
    } else if k == 2 {
        [0, 24, 12, 0, 12, 0, 24, 12, 0, 24, 12, 0, 12, 0, 24, 0]
    } else if k == 3 {
        [0, 12, 0, 12, 24, 0, 12, 0, 12, 24, 0, 12, 0, 12, 0, 24]
    } else {
        [0, 12, 24, 12, 0, 12, 0, 24, 12, 0, 12, 24, 0, 24, 12, 0]
    }
}

/// A note a semitone away from `pitch` that is outside the scale, for tension:
/// the one of `pitch + 1` (at most 127) and `pitch - 1` (at least 0) whose
/// pitch class is not in `pcs`, a fair coin when both or neither are.
fn chromatic_neighbor(pitch: u8, pcs: &Vec<u8>, rng: &mut Draws) -> (r: u8)
    ensures
        r == (if pitch >= 127 { 127 } else { pitch + 1 }) || r == (if pitch == 0 { 0 } else { pitch - 1 }),
        final(rng).seed() == old(rng).seed(),
        (r, final(rng).requests()) == neighbor(pitch, pcs@, old(rng).seed(), old(rng).requests()),
{
    let up: u8 = if pitch >= 127 { 127 } else { pitch + 1 };
    let dn: u8 = if pitch == 0 { 0 } else { pitch - 1 };
    let up_outside = !has_note(pcs, up % 12);
    let dn_outside = !has_note(pcs, dn % 12);
    if up_outside && !dn_outside {
        up
    } else if !up_outside && dn_outside {
        dn
    } else if chance(rng, 1, 2) {
        up
    } else {
        dn
    }
}

/// The semitone neighbour of `pitch` off the scale `pcs` that
/// `chromatic_neighbor` picks, with the requests after its coin flip.
pub open spec fn neighbor(pitch: u8, pcs: Seq<u8>, seed: u64, rq: Reqs) -> (u8, Reqs) {
    let up: u8 = if pitch >= 127 { 127u8 } else { (pitch + 1) as u8 };
    let dn: u8 = if pitch == 0 { 0u8 } else { (pitch - 1) as u8 };
    let up_out = !pcs.contains((up % 12) as u8);
    let dn_out = !pcs.contains((dn % 12) as u8);
    if up_out && !dn_out {
        (up, rq)
    } else if !up_out && dn_out {
        (dn, rq)
    } else if chance_answer(seed, rq, 1, 2) {
        (up, chance_req(rq, 1, 2))
    } else {
        (dn, chance_req(rq, 1, 2))
    }
}

/// A melody note after the chance of `chrom` in 100 (drawn only when `chrom`
/// is not zero) of moving to its chromatic neighbour.
pub open spec fn chromatic(p: u8, pcs: Seq<u8>, chrom: u8, seed: u64, rq: Reqs) -> (u8, Reqs) {
    if chrom > 0 {
        let rq1 = chance_req(rq, chrom as int, 100);
        if chance_answer(seed, rq, chrom as int, 100) {
            neighbor(p, pcs, seed, rq1)
        } else {
            (p, rq1)
        }
    } else {
        (p, rq)
    }
}

/// The five rhythm templates of the two-layer melody: eight (sixteenth
/// position, length) pairs each.
pub open spec fn melody_table(k: int) -> Seq<(u8, u32)> {
    if k == 0 {
        seq![(0u8, 72u32), (3, 72), (6, 48), (8, 24), (9, 24), (10, 24), (11, 24), (13, 24)]
    } else if k == 1 {
        seq![(0u8, 72u32), (4, 72), (8, 24), (9, 24), (10, 24), (11, 24), (13, 24), (14, 24)]
    } else if k == 2 {
        seq![(1u8, 72u32), (3, 48), (6, 72), (9, 24), (10, 24), (11, 24), (12, 24), (14, 24)]
    } else if k == 3 {
        seq![(0u8, 48u32), (2, 24), (3, 24), (5, 48), (8, 24), (9, 24), (10, 24), (12, 24)]
    } else {
        seq![(0u8, 72u32), (3, 72), (8, 24), (9, 24), (10, 24), (11, 24), (12, 24), (13, 24)]
    }
}

/// The scale and chord tones a melody is drawn from lie from `lo` to `hi`, with
/// room for a chromatic step on either side.
pub open spec fn melody_range(scale: Seq<u8>, chord_t: Seq<u8>, lo: int, hi: int) -> bool {
    within(scale, lo, hi) && within(chord_t, lo, hi) && scale.len() > 0 && 1 <= lo && hi <= 126
}

/// A melody (position, length, pitch) laid on rhythm template `k`.
pub open spec fn on_template(m: Seq<(u8, u32, u8)>, k: int) -> bool {
    m.len() == 8 && forall|i: int| 0 <= i < 8 ==> #[trigger] melody_table(k)[i] == (m[i].0, m[i].1)
}

/// One of five rhythm templates of the two-layer melody: eight (sixteenth
/// position, length) pairs.
fn melody_template(k: usize) -> (r: [(u8, u32); 8])
    requires
        k < 5,
    ensures
        r@ == melody_table(k as int),
        forall|i: int| 0 <= i < 8 ==> r@[i].0 < 16 && r@[i].0 * 24 + r@[i].1 <= BAR && r@[i].1 > 0,
{
    if k == 0 {
        [(0, DE), (3, DE), (6, E), (8, S), (9, S), (10, S), (11, S), (13, S)]
    } else if k == 1 {
        [(0, DE), (4, DE), (8, S), (9, S), (10, S), (11, S), (13, S), (14, S)]
    } else if k == 2 {
        [(1, DE), (3, E), (6, DE), (9, S), (10, S), (11, S), (12, S), (14, S)]
    } else if k == 3 {
        [(0, E), (2, S), (3, S), (5, E), (8, S), (9, S), (10, S), (12, S)]
    } else {
        [(0, DE), (3, DE), (8, S), (9, S), (10, S), (11, S), (12, S), (13, S)]
    }
}

/// A run step of the two-layer melody for a draw below ten: one step along
/// `dir` half the time, one back three times in ten, a leap of two along `dir`
/// otherwise.
pub open spec fn run_step(k: int, dir: i8) -> i8 {
    if k <= 4 {
        dir
    } else if k <= 7 {
        (-dir) as i8
    } else if dir == 1 {
        2i8
    } else {
        -2i8
    }
}

/// The first `i` short notes of a two-layer melody run from `p`: each a run
/// step, the chance of a chromatic neighbour, and for the third a chance of 40
/// in 100 of moving to the nearest chord tone. With the last pitch and the
/// requests after the draws.
pub open spec fn melody_runs(sc: Seq<u8>, ct: Seq<u8>, pcs: Seq<u8>, chrom: u8, dir: i8, p: u8, seed: u64, rq: Reqs, i: nat) -> (
    Seq<u8>,
    u8,
    Reqs,
)
    decreases i,
{
    if i == 0 {
        (Seq::empty(), p, rq)
    } else {
        let (sh, q, rq1) = melody_runs(sc, ct, pcs, chrom, dir, p, seed, rq, (i - 1) as nat);
        let q1 = spec_step_in_scale(sc, q, run_step(below_u8_answer(seed, rq1, 10), dir));
        let (q2, rq2) = chromatic(q1, pcs, chrom, seed, below_u8_req(rq1, 10));
        let (q3, rq3) = if i - 1 == 2 {
            if chance_answer(seed, rq2, 40, 100) {
                (spec_nearest_in_set(q2, ct), chance_req(rq2, 40, 100))
            } else {
                (q2, chance_req(rq2, 40, 100))
            }
        } else {
            (q2, rq2)
        };
        (sh.push(q3), q3, rq3)
    }
}

/// The first note of a two-layer melody: a step of -2 to 2 from the chord tone
/// nearest the previous melody's end, or a random chord tone; with the requests
/// after.
pub open spec fn melody_start(sc: Seq<u8>, ct: Seq<u8>, prev: Option<u8>, seed: u64, rq: Reqs) -> (u8, Reqs) {
    match prev {
        Some(p) => (
            spec_step_in_scale(sc, spec_nearest_in_set(p, ct), between_answer(seed, rq, -2, 2) as i8),
            between_req(rq, -2, 2),
        ),
        None => (ct[below_answer(seed, rq, ct.len() as int)], below_req(rq, ct.len() as int)),
    }
}

/// The melody `two_layer_melody` draws for one chord (entries of sixteenth
/// position, length and pitch), with the requests after its draws: nothing
/// when there are neither chord tones nor scale notes; else three long notes
/// from the start (along the direction, which follows `ascending` three times
/// in four, then back) and five run notes, laid on a random rhythm template.
pub open spec fn melody(sc: Seq<u8>, chord_t: Seq<u8>, pcs: Seq<u8>, prev: Option<u8>, ascending: bool, chrom: u8, seed: u64, rq: Reqs) -> (
    Seq<(u8, u32, u8)>,
    Reqs,
) {
    let ct = if chord_t.len() == 0 { sc } else { chord_t };
    if ct.len() == 0 {
        (Seq::empty(), rq)
    } else {
        let (start, rq1) = melody_start(sc, ct, prev, seed, rq);
        let dir: i8 = if chance_answer(seed, rq1, 75, 100) == ascending { 1i8 } else { -1i8 };
        let rq2 = chance_req(rq1, 75, 100);
        let a = between_answer(seed, rq2, 1, 4);
        let rq3 = between_req(rq2, 1, 4);
        let p1 = spec_step_in_scale(sc, start, (if dir == 1 { a } else { -a }) as i8);
        let b = between_answer(seed, rq3, 1, 5);
        let rq4 = between_req(rq3, 1, 5);
        let p2 = spec_step_in_scale(sc, p1, (if dir == 1 { -b } else { b }) as i8);
        let (sh, q, rq5) = melody_runs(sc, ct, pcs, chrom, dir, p2, seed, rq4, 5);
        let kt = below_answer(seed, rq5, 5);
        let pitches = seq![start, p1, p2] + sh;
        (Seq::new(8, |j: int| (melody_table(kt)[j].0, melody_table(kt)[j].1, pitches[j])), below_req(rq5, 5))
    }
}

/// The melody of one chord of the two-layer lead: three long notes moving from a
/// chord tone (near the previous melody's end) and a run of five short notes,
/// laid on a random rhythm template. Each entry is (sixteenth position, pitch,
/// length) and stays inside one bar.
fn two_layer_melody(
    rng: &mut Draws,
    scale: &Vec<u8>,
    chord_t: &Vec<u8>,
    pcs: &Vec<u8>,
    prev: Option<u8>,
    ascending: bool,
    chromaticism: u8,
) -> (r: Vec<(u8, u32, u8)>)
    requires
        scale.len() <= 256,
        chromaticism <= 100,
    ensures
        forall|i: int| 0 <= i < r@.len() ==> #[trigger] r@[i].0 < 16 && r@[i].0 * 24 + r@[i].1 <= BAR && r@[i].1 > 0,
        r@.len() == (if chord_t@.len() == 0 && scale@.len() == 0 { 0int } else { 8int }),
        r@.len() == 8 ==> exists|k: int| 0 <= k < 5 && #[trigger] on_template(r@, k),
        forall|lo: int, hi: int|
            #[trigger] melody_range(scale@, chord_t@, lo, hi) ==> forall|i: int|
                0 <= i < r@.len() ==> lo - 1 <= #[trigger] r@[i].2 <= hi + 1,
        final(rng).seed() == old(rng).seed(),
        (r@, final(rng).requests()) == melody(scale@, chord_t@, pcs@, prev, ascending, chromaticism, old(rng).seed(), old(rng).requests()),
{
    let ghost seed = rng.seed();
    let ghost rq0 = rng.requests();
    let ct: &Vec<u8> = if chord_t.len() == 0 { scale } else { chord_t };
    if ct.len() == 0 {
        return Vec::new();
    }
    let start = match prev {
        Some(p) => {
            let near = nearest(p, ct);
            let jitter = between(rng, -2, 2);
            step(scale, near, jitter)
        },
        None => {
            let idx = below(rng, ct.len());
            ct[idx]
        },
    };
    assert((start, rng.requests()) == melody_start(scale@, ct@, prev, seed, rq0));
    let ghost rq1 = rng.requests();
    let dir: i8 = if chance(rng, 75, 100) {
        if ascending { 1 } else { -1 }
    } else {
        if ascending { -1 } else { 1 }
    };
    assert(dir == (if chance_answer(seed, rq1, 75, 100) == ascending { 1i8 } else { -1i8 }));
    let p0 = start;
    assert(forall|lo: int, hi: int| #[trigger] melody_range(scale@, chord_t@, lo, hi) ==> lo <= p0 <= hi);
    let a = between(rng, 1, 4);
    let p1 = step(scale, p0, if dir == 1 { a } else { -a });
    let b = between(rng, 1, 5);
    let p2 = step(scale, p1, if dir == 1 { -b } else { b });
    let ghost rq4 = rng.requests();
    let mut p = p2;
    let mut shorts: Vec<u8> = Vec::new();
    let mut i: u32 = 0;
    while i < 5
        invariant
            i <= 5,
            shorts.len() == i,
            scale.len() <= 256,
            chromaticism <= 100,
            dir == 1 || dir == -1,
            ct@ == (if chord_t@.len() == 0 { scale@ } else { chord_t@ }),
            ct@.len() > 0,
            rng.seed() == seed,
            (shorts@, p, rng.requests()) == melody_runs(scale@, ct@, pcs@, chromaticism, dir, p2, seed, rq4, i as nat),
            forall|lo: int, hi: int| #[trigger] melody_range(scale@, chord_t@, lo, hi) ==> lo - 1 <= p <= hi + 1,
            forall|lo: int, hi: int|
                #[trigger] melody_range(scale@, chord_t@, lo, hi) ==> forall|q: int|
                    0 <= q < shorts@.len() ==> lo - 1 <= #[trigger] shorts@[q] <= hi + 1,
        decreases 5 - i,
    {
        let ghost rqi = rng.requests();
        let ghost shi = shorts@;
        let k = below_u8(rng, 10);
        let stp: i8 = if k <= 4 {
            dir
        } else if k <= 7 {
            -dir
        } else if dir == 1 {
            2
        } else {
            -2
        };
        assert(stp == run_step(below_u8_answer(seed, rqi, 10), dir));
        p = step(scale, p, stp);
        if chromaticism > 0 && chance(rng, chromaticism as u32, 100) {
            p = chromatic_neighbor(p, pcs, rng);
        }
        if i == 2 && chance(rng, 40, 100) {
            p = nearest(p, ct);
        }
        assert(forall|lo: int, hi: int| #[trigger] melody_range(scale@, chord_t@, lo, hi) ==> lo - 1 <= p <= hi + 1);
        shorts.push(p);
        assert(shorts@ =~= shi.push(p));
        i = i + 1;
    }
    let ghost rq5 = rng.requests();
    let kt = below(rng, 5);
    let tmpl = melody_template(kt);
    let pitches: [u8; 8] = [p0, p1, p2, shorts[0], shorts[1], shorts[2], shorts[3], shorts[4]];
    proof {
        assert forall|lo: int, hi: int| #[trigger] melody_range(scale@, chord_t@, lo, hi) implies forall|q: int|
            0 <= q < 8 ==> lo - 1 <= #[trigger] pitches@[q] <= hi + 1 by {
            assert(lo - 1 <= shorts@[0] <= hi + 1);
            assert(lo - 1 <= shorts@[1] <= hi + 1);
            assert(lo - 1 <= shorts@[2] <= hi + 1);
            assert(lo - 1 <= shorts@[3] <= hi + 1);
            assert(lo - 1 <= shorts@[4] <= hi + 1);
        }
    }
    let mut out: Vec<(u8, u32, u8)> = Vec::new();
    let mut j: usize = 0;
    while j < 8
        invariant
            j <= 8,
            out@.len() == j,
            tmpl@ == melody_table(kt as int),
            forall|i: int| 0 <= i < 8 ==> tmpl@[i].0 < 16 && tmpl@[i].0 * 24 + tmpl@[i].1 <= BAR && tmpl@[i].1 > 0,
            forall|i: int| 0 <= i < out@.len() ==> #[trigger] out@[i].0 < 16 && out@[i].0 * 24 + out@[i].1 <= BAR && out@[i].1 > 0,
            forall|i: int| 0 <= i < out@.len() ==> #[trigger] melody_table(kt as int)[i] == (out@[i].0, out@[i].1),
            forall|i: int| 0 <= i < out@.len() ==> #[trigger] out@[i].2 == pitches@[i],
            forall|lo: int, hi: int|
                #[trigger] melody_range(scale@, chord_t@, lo, hi) ==> forall|q: int|
                    0 <= q < 8 ==> lo - 1 <= #[trigger] pitches@[q] <= hi + 1,
        decreases 8 - j,
    {
        out.push((tmpl[j].0, tmpl[j].1, pitches[j]));
        j = j + 1;
    }
    assert(on_template(out@, kt as int));
    proof {
        assert(pitches@ =~= seq![p0, p1, p2] + shorts@);
        let want = Seq::new(8, |j: int| (melody_table(kt as int)[j].0, melody_table(kt as int)[j].1, pitches@[j]));
        assert forall|j: int| 0 <= j < 8 implies #[trigger] out@[j] == want[j] by {
            assert(melody_table(kt as int)[j] == (out@[j].0, out@[j].1));
            assert(out@[j].2 == pitches@[j]);
        }
        assert(out@ =~= want);
    }
    out
}

/// Sixteen bass notes from tick `t`, a sixteenth apart, `bass` raised by the
/// pattern's offsets; the first `i` of them.
pub open spec fn bass_notes(t: int, bass: u8, pat: Seq<u8>, vel: u8, i: nat) -> Seq<NoteEvent>
    decreases i,
{
    if i == 0 {
        Seq::empty()
    } else {
        bass_notes(t, bass, pat, vel, (i - 1) as nat).push(note(t + (i - 1) * 24, (bass + pat[i - 1]) as u8, vel, S))
    }
}

/// The first `j` melody entries as notes in the bar at `t`; in the unison lead
/// each is doubled an octave up at five less velocity (where the pitch allows)
/// and, when `double`, two octaves up at ten less.
pub open spec fn mel_notes(t: int, mel: Seq<(u8, u32, u8)>, vel: u8, unison: bool, double: bool, j: nat) -> Seq<NoteEvent>
    decreases j,
{
    if j == 0 {
        Seq::empty()
    } else {
        let m = mel[j - 1];
        let tick = t + m.0 * 24;
        let e1 = mel_notes(t, mel, vel, unison, double, (j - 1) as nat).push(note(tick, m.2, vel, m.1));
        if !unison {
            e1
        } else {
            let e2 = if m.2 + 12 <= 127 { e1.push(note(tick, (m.2 + 12) as u8, (vel - 5) as u8, m.1)) } else { e1 };
            if double && m.2 + 24 <= 127 {
                e2.push(note(tick, (m.2 + 24) as u8, (vel - 10) as u8, m.1))
            } else {
                e2
            }
        }
    }
}

/// The first `b` bars of chord `ci`: the bass pattern and the chord's melody in
/// each.
pub open spec fn layer_bars(pl: Plan, ci: int, bass: u8, pat: Seq<u8>, mel: Seq<(u8, u32, u8)>, vel: u8, unison: bool, double: bool, b: nat) -> Seq<
    NoteEvent,
>
    decreases b,
{
    if b == 0 {
        Seq::empty()
    } else {
        let t = bar_tick(pl, ci, b - 1);
        layer_bars(pl, ci, bass, pat, mel, vel, unison, double, (b - 1) as nat) + bass_notes(t, bass, pat, vel, 16) + mel_notes(
            t,
            mel,
            vel,
            unison,
            double,
            mel.len(),
        )
    }
}

/// The first `n` chords of the two-layer lead (or, with `unison`, of the
/// unison lead) over the bass pattern `pat`, the melody notes drawn from `lo`
/// to `hi`: the requests after them and the pitch the last melody ended on.
/// Each chord's melody continues from the previous one's end, ascending in the
/// first half of the progression (or when it has one chord).
pub open spec fn layer_chords(
    pl: Plan,
    pcs: Seq<u8>,
    seed: u64,
    rq: Reqs,
    pat: Seq<u8>,
    lo: u8,
    hi: u8,
    vel: u8,
    unison: bool,
    double: bool,
    n: nat,
) -> (Seq<NoteEvent>, Reqs, Option<u8>)
    decreases n,
{
    if n == 0 {
        (Seq::empty(), rq, None)
    } else {
        let (e, rq1, prev) = layer_chords(pl, pcs, seed, rq, pat, lo, hi, vel, unison, double, (n - 1) as nat);
        let ci = n - 1;
        let sc = spec_notes_in_range(pcs, lo, hi);
        let ct = spec_notes_in_range(crate::midi_gen::triad_pcs(pcs, chord_pc(pl, ci)), lo, hi);
        let asc = ci < pl.chords.len() / 2 || pl.chords.len() == 1;
        let (mel, rq2) = melody(sc, ct, pcs, prev, asc, pl.chromaticism, seed, rq1);
        let bass = (chord_pc(pl, ci) + 36) as u8;
        (
            e + layer_bars(pl, ci, bass, pat, mel, vel, unison, double, pl.bpc),
            rq2,
            if mel.len() > 0 { Some(mel.last().2) } else { None },
        )
    }
}

/// The two-layer lead: a random bass pattern, then its chords.
pub open spec fn two_layer_events(pl: Plan, pcs: Seq<u8>, seed: u64) -> Seq<NoteEvent> {
    let pat = bass_table(below_answer(seed, Seq::empty(), 5));
    layer_chords(pl, pcs, seed, below_req(Seq::empty(), 5), pat, 65, 87, 104, false, false, pl.chords.len()).0
}

/// The unison lead: a random bass pattern, a chance of 2 in 5 of the second
/// doubling, then its chords.
pub open spec fn unison_events(pl: Plan, pcs: Seq<u8>, seed: u64) -> Seq<NoteEvent> {
    let rq1 = below_req(Seq::empty(), 5);
    let pat = bass_table(below_answer(seed, Seq::empty(), 5));
    let double = chance_answer(seed, rq1, 2, 5);
    layer_chords(pl, pcs, seed, chance_req(rq1, 2, 5), pat, 55, 79, 105, true, double, pl.chords.len()).0
}

/// Sixteenth bass octaves under a two-layer melody: three long notes then a run
/// of short ones per chord, the melody continuing from the previous chord.
fn gen_two_layer(cfg: &MidiGenConfig, pcs: &Vec<u8>, rng: &mut Draws) -> (r: Vec<NoteEvent>)
    requires
        ready(*cfg, pcs@),
        cfg.chromaticism <= 100,
    ensures
        notes_end_by(r@, piece_ticks(*cfg) + BAR),
        lead_shape(LeadType::TwoLayer, r@, *cfg),
        old(rng).requests() == Seq::<(u8, u64, u64)>::empty() ==> r@ == two_layer_events(plan_of(*cfg), pcs@, old(rng).seed()),
{
    let ghost seed = rng.seed();
    let ghost rq0 = rng.requests();
    let vel = 104u8;
    let scale_mel = notes_between(pcs, 65, 87);
    let bpc = cfg.bars_per_chord as u32;
    let bass_pat = random_bass_pattern(rng);
    let mut events: Vec<NoteEvent> = Vec::new();
    let ghost end = piece_ticks(*cfg) + BAR;
    let mut prev: Option<u8> = None;
    let n = cfg.chords.len();
    proof {
        lemma_scale_nonempty(pcs@, 65, 87);
        lemma_next_chord(0, bpc as int);
    }
    let mut ci: usize = 0;
    while ci < n
        invariant
            ready(*cfg, pcs@),
            cfg.chromaticism <= 100,
            n == cfg.chords.len(),
            bpc == cfg.bars_per_chord,
            ci <= n,
            scale_mel.len() <= 256,
            scale_mel.len() > 0,
            within(scale_mel@, 65, 87),
            forall|i: int| 0 <= i < 16 ==> bass_pat@[i] <= 24,
            end == piece_ticks(*cfg) + BAR,
            notes_end_by(events@, end),
            rng.seed() == seed,
            scale_mel@ == spec_notes_in_range(pcs@, 65, 87),
            bass_pat@ == bass_table(below_answer(seed, rq0, 5)),
            (events@, rng.requests(), prev) == layer_chords(plan_of(*cfg), pcs@, seed, below_req(rq0, 5), bass_pat@, 65, 87, 104, false, false, ci as nat),
            vel == 104,
            all_vel(events@, vel),
            pitches_within(events@, 36, 88),
            events@.len() == 24 * (ci * bpc),
        decreases n - ci,
    {
        let cpc = chord_root_pc(cfg.key_root, cfg.chords[ci]);
        let bass = bass_midi(cpc);
        let ct = tones_between(pcs, cpc, 65, 87);
        let ascending = ci < n / 2 || n == 1;
        let melody = two_layer_melody(rng, &scale_mel, &ct, pcs, prev, ascending, cfg.chromaticism);
        assert(melody_range(scale_mel@, ct@, 65, 87));
        let ghost ev0 = events@;
        let mut bar: u32 = 0;
        while bar < bpc
            invariant
                ready(*cfg, pcs@),
                bpc == cfg.bars_per_chord,
                ci < cfg.chords.len(),
                bar <= bpc,
                bass <= 47,
                forall|i: int| 0 <= i < 16 ==> bass_pat@[i] <= 24,
                forall|i: int| 0 <= i < melody@.len() ==> #[trigger] melody@[i].0 < 16 && melody@[i].0 * 24 + melody@[i].1 <= BAR && melody@[i].1 > 0,
                end == piece_ticks(*cfg) + BAR,
                notes_end_by(events@, end),
                melody@.len() == 8,
                forall|q: int| 0 <= q < melody@.len() ==> 64 <= #[trigger] melody@[q].2 <= 88,
                36 <= bass,
                vel == 104,
                all_vel(events@, vel),
                pitches_within(events@, 36, 88),
                events@.len() == 24 * (ci * bpc + bar),
                bass == chord_pc(plan_of(*cfg), ci as int) + 36,
                events@ == ev0 + layer_bars(plan_of(*cfg), ci as int, bass, bass_pat@, melody@, 104, false, false, bar as nat),
            decreases bpc - bar,
        {
            let t = bar_start(cfg, ci, bar);
            let ghost base = events@.len() as int;
            let ghost evb = events@;
            let mut i: u32 = 0;
            while i < 16
                invariant
                    i <= 16,
                    end < 0x1000_0000,
                    t + BAR <= end - BAR,
                    36 <= bass <= 47,
                    forall|i: int| 0 <= i < 16 ==> bass_pat@[i] <= 24,
                    notes_end_by(events@, end),
                    vel == 104,
                    all_vel(events@, vel),
                    pitches_within(events@, 36, 88),
                    events@.len() == base + i,
                    events@ == evb + bass_notes(t as int, bass, bass_pat@, vel, i as nat),
                decreases 16 - i,
            {
                push_note(&mut events, t + i * S, bass + bass_pat[i as usize], vel, S, Ghost(end));
                assert(events@ =~= evb + bass_notes(t as int, bass, bass_pat@, vel, (i + 1) as nat));
                i = i + 1;
            }
            let mut j: usize = 0;
            while j < melody.len()
                invariant
                    j <= melody.len(),
                    end < 0x1000_0000,
                    t + BAR <= end - BAR,
                    forall|i: int| 0 <= i < melody@.len() ==> #[trigger] melody@[i].0 < 16 && melody@[i].0 * 24 + melody@[i].1 <= BAR && melody@[i].1 > 0,
                    notes_end_by(events@, end),
                    vel == 104,
                    all_vel(events@, vel),
                    pitches_within(events@, 36, 88),
                    events@.len() == base + 16 + j,
                    forall|q: int| 0 <= q < melody@.len() ==> 64 <= #[trigger] melody@[q].2 <= 88,
                    events@ == evb + bass_notes(t as int, bass, bass_pat@, vel, 16) + mel_notes(t as int, melody@, vel, false, false, j as nat),
                decreases melody.len() - j,
            {
                let m = melody[j];
                assert(melody@[j as int].0 < 16);
                push_note(&mut events, t + m.0 as u32 * S, m.2, vel, m.1, Ghost(end));
                assert(events@ =~= evb + bass_notes(t as int, bass, bass_pat@, vel, 16) + mel_notes(t as int, melody@, vel, false, false, (j + 1) as nat));
                j = j + 1;
            }
            proof {
                assert(t == bar_tick(plan_of(*cfg), ci as int, bar as int));
                assert(events@ =~= ev0 + layer_bars(plan_of(*cfg), ci as int, bass, bass_pat@, melody@, 104, false, false, (bar + 1) as nat));
            }
            bar = bar + 1;
        }
        prev = if melody.len() > 0 { Some(melody[melody.len() - 1].2) } else { None };
        proof {
            lemma_next_chord(ci as int, bpc as int);
        }
        ci = ci + 1;
    }
    events
}

/// The two-layer melody doubled an octave up (and, in two of five pieces, two
/// octaves up) over the sixteenth bass octaves: the "supersaw" unison lead.
fn gen_unison(cfg: &MidiGenConfig, pcs: &Vec<u8>, rng: &mut Draws) -> (r: Vec<NoteEvent>)
    requires
        ready(*cfg, pcs@),
        cfg.chromaticism <= 100,
    ensures
        notes_end_by(r@, piece_ticks(*cfg) + BAR),
        lead_shape(LeadType::Unison, r@, *cfg),
        old(rng).requests() == Seq::<(u8, u64, u64)>::empty() ==> r@ == unison_events(plan_of(*cfg), pcs@, old(rng).seed()),
{
    let ghost seed = rng.seed();
    let ghost rq0 = rng.requests();
    let vel = 105u8;
    let scale_mel = notes_between(pcs, 55, 79);
    let bpc = cfg.bars_per_chord as u32;
    let bass_pat = random_bass_pattern(rng);
    let mut events: Vec<NoteEvent> = Vec::new();
    let ghost end = piece_ticks(*cfg) + BAR;
    let mut prev: Option<u8> = None;
    let n = cfg.chords.len();
    let ghost rqb = rng.requests();
    let double_24 = chance(rng, 2, 5);
    assert(double_24 == chance_answer(seed, rqb, 2, 5));
    proof {
        lemma_scale_nonempty(pcs@, 55, 79);
        lemma_next_chord(0, bpc as int);
    }
    let mut ci: usize = 0;
    while ci < n
        invariant
            ready(*cfg, pcs@),
            cfg.chromaticism <= 100,
            n == cfg.chords.len(),
            bpc == cfg.bars_per_chord,
            ci <= n,
            scale_mel.len() <= 256,
            scale_mel.len() > 0,
            within(scale_mel@, 55, 79),
            vel == 105,
            forall|i: int| 0 <= i < 16 ==> bass_pat@[i] <= 24,
            end == piece_ticks(*cfg) + BAR,
            notes_end_by(events@, end),
            rng.seed() == seed,
            scale_mel@ == spec_notes_in_range(pcs@, 55, 79),
            bass_pat@ == bass_table(below_answer(seed, rq0, 5)),
            (events@, rng.requests(), prev) == layer_chords(plan_of(*cfg), pcs@, seed, chance_req(below_req(rq0, 5), 2, 5), bass_pat@, 55, 79, 105, true, double_24, ci as nat),
            vels_within(events@, 95, 105),
            pitches_within(events@, 36, 104),
            24 * (ci * bpc) <= events@.len() <= 40 * (ci * bpc),
        decreases n - ci,
    {
        let cpc = chord_root_pc(cfg.key_root, cfg.chords[ci]);
        let bass = bass_midi(cpc);
        let ct = tones_between(pcs, cpc, 55, 79);
        let ascending = ci < n / 2 || n == 1;
        let melody = two_layer_melody(rng, &scale_mel, &ct, pcs, prev, ascending, cfg.chromaticism);
        assert(melody_range(scale_mel@, ct@, 55, 79));
        let ghost ev0 = events@;
        let mut bar: u32 = 0;
        while bar < bpc
            invariant
                ready(*cfg, pcs@),
                bpc == cfg.bars_per_chord,
                ci < cfg.chords.len(),
                bar <= bpc,
                vel == 105,
                bass <= 47,
                forall|i: int| 0 <= i < 16 ==> bass_pat@[i] <= 24,
                forall|i: int| 0 <= i < melody@.len() ==> #[trigger] melody@[i].0 < 16 && melody@[i].0 * 24 + melody@[i].1 <= BAR && melody@[i].1 > 0,
                end == piece_ticks(*cfg) + BAR,
                notes_end_by(events@, end),
                melody@.len() == 8,
                forall|q: int| 0 <= q < melody@.len() ==> 54 <= #[trigger] melody@[q].2 <= 80,
                36 <= bass,
                vels_within(events@, 95, 105),
                pitches_within(events@, 36, 104),
                24 * (ci * bpc + bar) <= events@.len() <= 40 * (ci * bpc + bar),
                bass == chord_pc(plan_of(*cfg), ci as int) + 36,
                events@ == ev0 + layer_bars(plan_of(*cfg), ci as int, bass, bass_pat@, melody@, 105, true, double_24, bar as nat),
            decreases bpc - bar,
        {
            let t = bar_start(cfg, ci, bar);
            let ghost base = events@.len() as int;
            let ghost evb = events@;
            let mut i: u32 = 0;
            while i < 16
                invariant
                    i <= 16,
                    end < 0x1000_0000,
                    t + BAR <= end - BAR,
                    36 <= bass <= 47,
                    forall|i: int| 0 <= i < 16 ==> bass_pat@[i] <= 24,
                    notes_end_by(events@, end),
                    vel == 105,
                    vels_within(events@, 95, 105),
                    pitches_within(events@, 36, 104),
                    events@.len() == base + i,
                    events@ == evb + bass_notes(t as int, bass, bass_pat@, vel, i as nat),
                decreases 16 - i,
            {
                push_note(&mut events, t + i * S, bass + bass_pat[i as usize], vel, S, Ghost(end));
                assert(events@ =~= evb + bass_notes(t as int, bass, bass_pat@, vel, (i + 1) as nat));
                i = i + 1;
            }
            let mut j: usize = 0;
            while j < melody.len()
                invariant
                    j <= melody.len(),
                    vel == 105,
                    end < 0x1000_0000,
                    t + BAR <= end - BAR,
                    forall|i: int| 0 <= i < melody@.len() ==> #[trigger] melody@[i].0 < 16 && melody@[i].0 * 24 + melody@[i].1 <= BAR && melody@[i].1 > 0,
                    notes_end_by(events@, end),
                    vels_within(events@, 95, 105),
                    pitches_within(events@, 36, 104),
                    base + 16 + j <= events@.len() <= base + 16 + 3 * j,
                    forall|q: int| 0 <= q < melody@.len() ==> 54 <= #[trigger] melody@[q].2 <= 80,
                    events@ == evb + bass_notes(t as int, bass, bass_pat@, vel, 16) + mel_notes(t as int, melody@, vel, true, double_24, j as nat),
                decreases melody.len() - j,
            {
                let m = melody[j];
                assert(melody@[j as int].0 < 16);
                let tick = t + m.0 as u32 * S;
                let pitch = m.2;
                push_note(&mut events, tick, pitch, vel, m.1, Ghost(end));
                if pitch as u16 + 12 <= 127 {
                    push_note(&mut events, tick, pitch + 12, vel - 5, m.1, Ghost(end));
                }
                if double_24 && pitch as u16 + 24 <= 127 {
                    push_note(&mut events, tick, pitch + 24, vel - 10, m.1, Ghost(end));
                }
                assert(events@ =~= evb + bass_notes(t as int, bass, bass_pat@, vel, 16) + mel_notes(t as int, melody@, vel, true, double_24, (j + 1) as nat));
                j = j + 1;
            }
            proof {
                assert(t == bar_tick(plan_of(*cfg), ci as int, bar as int));
                assert(events@ =~= ev0 + layer_bars(plan_of(*cfg), ci as int, bass, bass_pat@, melody@, 105, true, double_24, (bar + 1) as nat));
            }
            bar = bar + 1;
        }
        prev = if melody.len() > 0 { Some(melody[melody.len() - 1].2) } else { None };
        proof {
            lemma_next_chord(ci as int, bpc as int);
        }
        ci = ci + 1;
    }
    events
}

// ----- Zigzag ----------------------------------------------------

/// Root octave pairs alternating with four two-note melody cells per bar, the
/// cells walking the scale from a random chord tone.
fn gen_zigzag(cfg: &MidiGenConfig, pcs: &Vec<u8>, rng: &mut Draws) -> (r: Vec<NoteEvent>)
    requires
        ready(*cfg, pcs@),
    ensures
        notes_end_by(r@, piece_ticks(*cfg) + BAR),
        lead_shape(LeadType::Zigzag, r@, *cfg),
        final(rng).seed() == old(rng).seed(),
        (r@, final(rng).requests()) == zigzag_events(plan_of(*cfg), pcs@, old(rng).seed(), old(rng).requests(), cfg.chords@.len()),
{
    let ghost seed = rng.seed();
    let ghost rq0 = rng.requests();
    let vel = 122u8;
    let scale_mel = notes_between(pcs, 72, 89);
    let bpc = cfg.bars_per_chord as u32;
    let mut events: Vec<NoteEvent> = Vec::new();
    let ghost end = piece_ticks(*cfg) + BAR;
    let n = cfg.chords.len();
    proof {
        lemma_next_chord(0, bpc as int);
    }
    let mut ci: usize = 0;
    while ci < n
        invariant
            ready(*cfg, pcs@),
            n == cfg.chords.len(),
            bpc == cfg.bars_per_chord,
            ci <= n,
            end == piece_ticks(*cfg) + BAR,
            notes_end_by(events@, end),
            scale_mel.len() <= 256,
            vel == 122,
            all_vel(events@, vel),
            all_dur(events@, S),
            pitches_within(events@, 36, 89),
            within(scale_mel@, 72, 89),
            events@.len() == 16 * (ci * bpc),
            rng.seed() == seed,
            scale_mel@ == spec_notes_in_range(pcs@, 72, 89),
            (events@, rng.requests()) == zigzag_events(plan_of(*cfg), pcs@, seed, rq0, ci as nat),
        decreases n - ci,
    {
        let cpc = chord_root_pc(cfg.key_root, cfg.chords[ci]);
        let root_lo = bass_midi(cpc);
        let ct = tones_between(pcs, cpc, 72, 89);
        let start = if ct.len() > 0 {
            ct[below(rng, ct.len())]
        } else if scale_mel.len() > 0 {
            scale_mel[below(rng, scale_mel.len())]
        } else {
            72
        };
        let ghost rq1 = rng.requests();
        let mut cursor = start;
        let mut pairs: Vec<(u8, u8)> = Vec::new();
        let mut k: u32 = 0;
        while k < 4
            invariant
                k <= 4,
                pairs.len() == k,
                scale_mel.len() <= 256,
                rng.seed() == seed,
                (pairs@, cursor, rng.requests()) == zigzag_pairs(scale_mel@, seed, rq1, start, k as nat),
                within(scale_mel@, 72, 89),
                72 <= cursor <= 89,
                forall|q: int| 0 <= q < pairs@.len() ==> 72 <= #[trigger] pairs@[q].0 <= 89 && 72 <= pairs@[q].1 <= 89,
            decreases 4 - k,
        {
            let m1 = cursor;
            let st = between(rng, -2, 3);
            let m2 = step(&scale_mel, m1, st);
            let jump = between(rng, -1, 2);
            cursor = step(&scale_mel, m2, jump);
            pairs.push((m1, m2));
            k = k + 1;
        }
        let lo_oct: u8 = if chance(rng, 30, 100) { 12 } else { 0 };
        let hi_oct = lo_oct + 12;
        let ghost setup = (root_lo, pairs@, lo_oct);
        let ghost ev0 = events@;
        proof {
            assert(zigzag_setup(plan_of(*cfg), pcs@, seed, zigzag_events(plan_of(*cfg), pcs@, seed, rq0, ci as nat).1, ci as int) == (
            setup, rng.requests()));
        }
        let mut bar: u32 = 0;
        while bar < bpc
            invariant
                ready(*cfg, pcs@),
                bpc == cfg.bars_per_chord,
                ci < cfg.chords.len(),
                bar <= bpc,
                end == piece_ticks(*cfg) + BAR,
                notes_end_by(events@, end),
                pairs.len() == 4,
                36 <= root_lo <= 47,
                lo_oct <= 12,
                hi_oct == lo_oct + 12,
                forall|q: int| 0 <= q < pairs@.len() ==> 72 <= #[trigger] pairs@[q].0 <= 89 && 72 <= pairs@[q].1 <= 89,
                pitches_within(events@, 36, 89),
                vel == 122,
                all_vel(events@, vel),
                all_dur(events@, S),
                events@.len() == 16 * (ci * bpc + bar),
                setup == (root_lo, pairs@, lo_oct),
                events@ == ev0 + zigzag_bars(plan_of(*cfg), ci as int, setup, bar as nat),
            decreases bpc - bar,
        {
            let t = bar_start(cfg, ci, bar);
            let ghost base = events@.len() as int;
            let ghost evb = events@;
            let mut cell: u32 = 0;
            while cell < 4
                invariant
                    cell <= 4,
                    pairs.len() == 4,
                    end < 0x1000_0000,
                    t + BAR <= end - BAR,
                    36 <= root_lo <= 47,
                    forall|q: int| 0 <= q < pairs@.len() ==> 72 <= #[trigger] pairs@[q].0 <= 89 && 72 <= pairs@[q].1 <= 89,
                    pitches_within(events@, 36, 89),
                    lo_oct <= 12,
                    hi_oct == lo_oct + 12,
                    notes_end_by(events@, end),
                    vel == 122,
                    all_vel(events@, vel),
                    all_dur(events@, S),
                    events@.len() == base + 4 * cell,
                    setup == (root_lo, pairs@, lo_oct),
                    events@ == evb + zigzag_cells(t as int, setup, cell as nat),
                decreases 4 - cell,
            {
                let (m1, m2) = pairs[cell as usize];
                assert(72 <= pairs@[cell as int].0 <= 89);
                let base = t + cell * 4 * S;
                push_note(&mut events, base, root_lo + lo_oct, vel, S, Ghost(end));
                push_note(&mut events, base + S, root_lo + hi_oct, vel, S, Ghost(end));
                push_note(&mut events, base + 2 * S, m1, vel, S, Ghost(end));
                push_note(&mut events, base + 3 * S, m2, vel, S, Ghost(end));
                assert(events@ =~= evb + zigzag_cells(t as int, setup, (cell + 1) as nat));
                cell = cell + 1;
            }
            assert(t == bar_tick(plan_of(*cfg), ci as int, bar as int));
            assert(events@ =~= ev0 + zigzag_bars(plan_of(*cfg), ci as int, setup, (bar + 1) as nat));
            bar = bar + 1;
        }
        proof {
            lemma_next_chord(ci as int, bpc as int);
        }
        ci = ci + 1;
    }
    events
}

/// The melody pairs of a zigzag chord: `k` pairs walked from `cursor`, the
/// cursor after them and the requests after their draws.
pub open spec fn zigzag_pairs(scale: Seq<u8>, seed: u64, rq: Reqs, cursor: u8, k: nat) -> (Seq<(u8, u8)>, u8, Reqs)
    decreases k,
{
    if k == 0 {
        (Seq::empty(), cursor, rq)
    } else {
        let (ps, m1, rq1) = zigzag_pairs(scale, seed, rq, cursor, (k - 1) as nat);
        let m2 = spec_step_in_scale(scale, m1, between_answer(seed, rq1, -2, 3) as i8);
        let rq2 = between_req(rq1, -2, 3);
        let next = spec_step_in_scale(scale, m2, between_answer(seed, rq2, -1, 2) as i8);
        (ps.push((m1, m2)), next, between_req(rq2, -1, 2))
    }
}

/// What a zigzag chord draws: its low root, melody pairs and octave lift, and
/// the requests after them.
pub open spec fn zigzag_setup(pl: Plan, pcs: Seq<u8>, seed: u64, rq: Reqs, ci: int) -> ((u8, Seq<(u8, u8)>, u8), Reqs) {
    let scale = spec_notes_in_range(pcs, 72, 89);
    let cpc = chord_pc(pl, ci);
    let ct = spec_notes_in_range(crate::midi_gen::triad_pcs(pcs, cpc), 72, 89);
    let (start, rq1) = if ct.len() > 0 {
        (ct[below_answer(seed, rq, ct.len() as int)], below_req(rq, ct.len() as int))
    } else if scale.len() > 0 {
        (scale[below_answer(seed, rq, scale.len() as int)], below_req(rq, scale.len() as int))
    } else {
        (72u8, rq)
    };
    let (pairs, _c, rq2) = zigzag_pairs(scale, seed, rq1, start, 4);
    let lo_oct: u8 = if chance_answer(seed, rq2, 30, 100) { 12 } else { 0 };
    (((cpc + 36) as u8, pairs, lo_oct), chance_req(rq2, 30, 100))
}

/// The first `c` cells of a zigzag bar at tick `t`.
pub open spec fn zigzag_cells(t: int, p: (u8, Seq<(u8, u8)>, u8), c: nat) -> Seq<NoteEvent>
    decreases c,
{
    if c == 0 {
        Seq::empty()
    } else {
        let (root, pairs, lo) = p;
        let b = t + (c - 1) * 96;
        let (m1, m2) = pairs[c - 1];
        zigzag_cells(t, p, (c - 1) as nat) + seq![
            note(b, (root + lo) as u8, 122, S),
            note(b + 24, (root + lo + 12) as u8, 122, S),
            note(b + 48, m1, 122, S),
            note(b + 72, m2, 122, S),
        ]
    }
}

/// The first `k` bars of chord `ci` of the zigzag lead.
pub open spec fn zigzag_bars(pl: Plan, ci: int, p: (u8, Seq<(u8, u8)>, u8), k: nat) -> Seq<NoteEvent>
    decreases k,
{
    if k == 0 {
        Seq::empty()
    } else {
        zigzag_bars(pl, ci, p, (k - 1) as nat) + zigzag_cells(bar_tick(pl, ci, k - 1), p, 4)
    }
}

/// The first `n` chords of the zigzag lead and the requests after them.
pub open spec fn zigzag_events(pl: Plan, pcs: Seq<u8>, seed: u64, rq: Reqs, n: nat) -> (Seq<NoteEvent>, Reqs)
    decreases n,
{
    if n == 0 {
        (Seq::empty(), rq)
    } else {
        let prev = zigzag_events(pl, pcs, seed, rq, (n - 1) as nat);
        let (p, rq2) = zigzag_setup(pl, pcs, seed, prev.1, n - 1);
        (prev.0 + zigzag_bars(pl, n - 1, p, pl.bpc), rq2)
    }
}

// ----- Bounce ----------------------------------------------------

/// Bass stabs on two octaves bouncing against three or four melody notes per
/// chord, with random swaps of the melody notes.
#[verifier::spinoff_prover]
#[verifier::rlimit(40)]
/// Appends one bar of the bounce lead, drawing its three coin flips.
fn bounce_bar_notes(events: &mut Vec<NoteEvent>, rng: &mut Draws, t: u32, p: (u8, u8, u8, u8, u8, u8), Ghost(end): Ghost<int>)
    requires
        notes_end_by(old(events)@, end),
        t + 2 * BAR <= end,
        end < 0x1000_0000,
        all_vel(old(events)@, 122),
        pitches_within(old(events)@, 36, 89),
        48 <= p.0 <= 59,
        36 <= p.1 <= 47,
        72 <= p.2 <= 89,
        72 <= p.3 <= 89,
        72 <= p.4 <= 89,
        72 <= p.5 <= 89,
    ensures
        notes_end_by(final(events)@, end),
        all_vel(final(events)@, 122),
        pitches_within(final(events)@, 36, 89),
        final(events)@.len() == old(events)@.len() + 12,
        final(rng).seed() == old(rng).seed(),
        final(events)@ == old(events)@ + bounce_bar(t as int, p, old(rng).seed(), old(rng).requests()).0,
        final(rng).requests() == bounce_bar(t as int, p, old(rng).seed(), old(rng).requests()).1,
{
    let ghost evb = events@;
    let (b3, b2, ma, mb, mc, md) = p;
    let vel = 122u8;
    push_note(events, t, b3, vel, E, Ghost(end));
    push_note(events, t, ma, vel, E, Ghost(end));
    push_note(events, t + 2 * S, mb, vel, S, Ghost(end));
    push_note(events, t + 3 * S, b3, vel, E, Ghost(end));
    let p5 = if chance(rng, 60, 100) { ma } else { md };
    push_note(events, t + 5 * S, p5, vel, S, Ghost(end));
    push_note(events, t + 6 * S, b2, vel, E, Ghost(end));
    let p7 = if chance(rng, 70, 100) { mb } else { ma };
    push_note(events, t + 7 * S, p7, vel, S, Ghost(end));
    push_note(events, t + 8 * S, b3, vel, E, Ghost(end));
    push_note(events, t + 10 * S, mc, vel, S, Ghost(end));
    push_note(events, t + 11 * S, b3, vel, E, Ghost(end));
    push_note(events, t + 14 * S, b2, vel, E, Ghost(end));
    let p14 = if chance(rng, 50, 100) { mc } else { md };
    push_note(events, t + 14 * S, p14, vel, S, Ghost(end));
    assert(events@ =~= evb + bounce_bar(t as int, p, old(rng).seed(), old(rng).requests()).0);
}

fn gen_bounce(cfg: &MidiGenConfig, pcs: &Vec<u8>, rng: &mut Draws) -> (r: Vec<NoteEvent>)
    requires
        ready(*cfg, pcs@),
    ensures
        notes_end_by(r@, piece_ticks(*cfg) + BAR),
        lead_shape(LeadType::Bounce, r@, *cfg),
        final(rng).seed() == old(rng).seed(),
        (r@, final(rng).requests()) == bounce_events(plan_of(*cfg), pcs@, old(rng).seed(), old(rng).requests(), cfg.chords@.len()),
{
    let ghost seed = rng.seed();
    let ghost rq0 = rng.requests();
    let vel = 122u8;
    let scale_mel = notes_between(pcs, 72, 89);
    let bpc = cfg.bars_per_chord as u32;
    let mut events: Vec<NoteEvent> = Vec::new();
    let ghost end = piece_ticks(*cfg) + BAR;
    let n = cfg.chords.len();
    proof {
        lemma_next_chord(0, bpc as int);
    }
    let mut ci: usize = 0;
    while ci < n
        invariant
            ready(*cfg, pcs@),
            n == cfg.chords.len(),
            bpc == cfg.bars_per_chord,
            ci <= n,
            end == piece_ticks(*cfg) + BAR,
            notes_end_by(events@, end),
            scale_mel.len() <= 256,
            vel == 122,
            all_vel(events@, vel),
            pitches_within(events@, 36, 89),
            within(scale_mel@, 72, 89),
            events@.len() == 12 * (ci * bpc),
            rng.seed() == seed,
            scale_mel@ == spec_notes_in_range(pcs@, 72, 89),
            (events@, rng.requests()) == bounce_events(plan_of(*cfg), pcs@, seed, rq0, ci as nat),
        decreases n - ci,
    {
        let cpc = chord_root_pc(cfg.key_root, cfg.chords[ci]);
        let b3 = cpc + 48;
        let b2 = cpc + 36;
        let ct = tones_between(pcs, cpc, 72, 89);
        let ma = if ct.len() > 0 {
            ct[below(rng, ct.len())]
        } else {
            let k = below(rng, if scale_mel.len() > 1 { scale_mel.len() } else { 1 });
            if k < scale_mel.len() { scale_mel[k] } else { 78 }
        };
        let d1 = between(rng, -3, -1);
        let mb = step(&scale_mel, ma, d1);
        let d2 = between(rng, 2, 6);
        let mc = step(&scale_mel, ma, d2);
        let d3 = between(rng, -2, 1);
        let md = step(&scale_mel, mc, d3);
        let ghost pitches = (b3, b2, ma, mb, mc, md);
        let ghost ev0 = events@;
        let ghost rq2 = rng.requests();
        proof {
            assert(bounce_pitches(plan_of(*cfg), pcs@, seed, bounce_events(plan_of(*cfg), pcs@, seed, rq0, ci as nat).1, ci as int) == (
            pitches, rq2));
        }
        let mut bar: u32 = 0;
        while bar < bpc
            invariant
                ready(*cfg, pcs@),
                bpc == cfg.bars_per_chord,
                ci < cfg.chords.len(),
                bar <= bpc,
                end == piece_ticks(*cfg) + BAR,
                notes_end_by(events@, end),
                vel == 122,
                all_vel(events@, vel),
                pitches_within(events@, 36, 89),
                48 <= b3 <= 59,
                36 <= b2 <= 47,
                72 <= ma <= 89,
                72 <= mb <= 89,
                72 <= mc <= 89,
                72 <= md <= 89,
                events@.len() == 12 * (ci * bpc + bar),
                rng.seed() == seed,
                pitches == (b3, b2, ma, mb, mc, md),
                events@ == ev0 + bounce_bars(plan_of(*cfg), ci as int, pitches, seed, rq2, bar as nat).0,
                rng.requests() == bounce_bars(plan_of(*cfg), ci as int, pitches, seed, rq2, bar as nat).1,
            decreases bpc - bar,
        {
            let t = bar_start(cfg, ci, bar);
            bounce_bar_notes(&mut events, rng, t, (b3, b2, ma, mb, mc, md), Ghost(end));
            proof {
                assert(events@ =~= ev0 + bounce_bars(plan_of(*cfg), ci as int, pitches, seed, rq2, (bar + 1) as nat).0);
            }
            bar = bar + 1;
        }
        proof {
            lemma_next_chord(ci as int, bpc as int);
        }
        ci = ci + 1;
    }
    events
}

/// One bar of the bounce lead and the requests after its three coin flips.
pub open spec fn bounce_bar(t: int, p: (u8, u8, u8, u8, u8, u8), seed: u64, rq: Reqs) -> (Seq<NoteEvent>, Reqs) {
    let (b3, b2, ma, mb, mc, md) = p;
    let rq1 = chance_req(rq, 60, 100);
    let p5 = if chance_answer(seed, rq, 60, 100) { ma } else { md };
    let rq2 = chance_req(rq1, 70, 100);
    let p7 = if chance_answer(seed, rq1, 70, 100) { mb } else { ma };
    let rq3 = chance_req(rq2, 50, 100);
    let p14 = if chance_answer(seed, rq2, 50, 100) { mc } else { md };
    (
        seq![
            note(t, b3, 122, E), note(t, ma, 122, E), note(t + 48, mb, 122, S), note(t + 72, b3, 122, E),
            note(t + 120, p5, 122, S), note(t + 144, b2, 122, E), note(t + 168, p7, 122, S), note(t + 192, b3, 122, E),
            note(t + 240, mc, 122, S), note(t + 264, b3, 122, E), note(t + 336, b2, 122, E), note(t + 336, p14, 122, S),
        ],
        rq3,
    )
}

/// The first `k` bars of chord `ci` of the bounce lead and the requests after them.
pub open spec fn bounce_bars(pl: Plan, ci: int, p: (u8, u8, u8, u8, u8, u8), seed: u64, rq: Reqs, k: nat) -> (
    Seq<NoteEvent>,
    Reqs,
)
    decreases k,
{
    if k == 0 {
        (Seq::empty(), rq)
    } else {
        let prev = bounce_bars(pl, ci, p, seed, rq, (k - 1) as nat);
        let (e, rq2) = bounce_bar(bar_tick(pl, ci, k - 1), p, seed, prev.1);
        (prev.0 + e, rq2)
    }
}

/// The pitches of chord `ci` of the bounce lead and the requests after drawing them.
pub open spec fn bounce_pitches(pl: Plan, pcs: Seq<u8>, seed: u64, rq: Reqs, ci: int) -> (
    (u8, u8, u8, u8, u8, u8),
    Reqs,
) {
    let scale = spec_notes_in_range(pcs, 72, 89);
    let cpc = chord_pc(pl, ci);
    let ct = spec_notes_in_range(crate::midi_gen::triad_pcs(pcs, cpc), 72, 89);
    let m: int = if ct.len() > 0 { ct.len() as int } else if scale.len() > 1 { scale.len() as int } else { 1 };
    let k = below_answer(seed, rq, m);
    let ma = if ct.len() > 0 { ct[k] } else if k < scale.len() { scale[k] } else { 78u8 };
    let rq1 = below_req(rq, m);
    let mb = spec_step_in_scale(scale, ma, between_answer(seed, rq1, -3, -1) as i8);
    let rq2 = between_req(rq1, -3, -1);
    let mc = spec_step_in_scale(scale, ma, between_answer(seed, rq2, 2, 6) as i8);
    let rq3 = between_req(rq2, 2, 6);
    let md = spec_step_in_scale(scale, mc, between_answer(seed, rq3, -2, 1) as i8);
    (((cpc + 48) as u8, (cpc + 36) as u8, ma, mb, mc, md), between_req(rq3, -2, 1))
}

/// The first `n` chords of the bounce lead and the requests after them.
pub open spec fn bounce_events(pl: Plan, pcs: Seq<u8>, seed: u64, rq: Reqs, n: nat) -> (Seq<NoteEvent>, Reqs)
    decreases n,
{
    if n == 0 {
        (Seq::empty(), rq)
    } else {
        let prev = bounce_events(pl, pcs, seed, rq, (n - 1) as nat);
        let (p, rq2) = bounce_pitches(pl, pcs, seed, prev.1, n - 1);
        let bars = bounce_bars(pl, n - 1, p, seed, rq2, pl.bpc);
        (prev.0 + bars.0, bars.1)
    }
}

// ----- Cell ------------------------------------------------------

proof fn lemma_rep_slot(rep: int, bpc: int, ci: int, n: int)
    requires
        0 <= rep < bpc,
        0 <= ci < n,
    ensures
        (rep * n + ci + 1) * 384 <= n * bpc * 384,
        0 <= rep * n + ci,
{
    assert(rep * n + ci + 1 <= n * bpc) by (nonlinear_arith)
        requires
            0 <= rep < bpc,
            0 <= ci < n,
    ;
    assert(0 <= rep * n) by (nonlinear_arith)
        requires
            0 <= rep,
            0 <= n,
    ;
}

/// Start tick of chord `ci` in repetition `rep` of the progression.
fn rep_start(cfg: &MidiGenConfig, rep: u32, ci: usize) -> (t: u32)
    requires
        ci < cfg.chords@.len(),
        rep < cfg.bars_per_chord,
        piece_ticks(*cfg) + BAR < 0x1000_0000,
    ensures
        t + BAR <= piece_ticks(*cfg),
        t == (rep * cfg.chords@.len() + ci) * BAR,
{
    proof {
        lemma_rep_slot(rep as int, cfg.bars_per_chord as int, ci as int, cfg.chords@.len() as int);
        assert(cfg.chords@.len() <= piece_ticks(*cfg)) by (nonlinear_arith)
            requires
                piece_ticks(*cfg) == cfg.chords@.len() * cfg.bars_per_chord * 384,
                cfg.bars_per_chord >= 1,
        ;
    }
    let n = cfg.chords.len() as u32;
    assert((rep * n + ci) * 384 < 0x1000_0000);
    (rep * n + ci as u32) * BAR
}

/// One bar per chord, the progression played `bars_per_chord` times: two cells
/// of four melody notes between root octaves, the melody stepping up and back.
fn gen_cell(cfg: &MidiGenConfig, pcs: &Vec<u8>, rng: &mut Draws) -> (r: Vec<NoteEvent>)
    requires
        ready(*cfg, pcs@),
    ensures
        notes_end_by(r@, piece_ticks(*cfg) + BAR),
        lead_shape(LeadType::Cell, r@, *cfg),
        final(rng).seed() == old(rng).seed(),
        (r@, final(rng).requests()) == (
            cell_events(plan_of(*cfg), pcs@, old(rng).seed(), old(rng).requests(), cfg.bars_per_chord as nat).0,
            cell_events(plan_of(*cfg), pcs@, old(rng).seed(), old(rng).requests(), cfg.bars_per_chord as nat).1,
        ),
{
    let ghost seed = rng.seed();
    let ghost rq0 = rng.requests();
    let vel = 122u8;
    let scale_mel = notes_between(pcs, 65, 85);
    let repeats: u32 = if cfg.bars_per_chord == 0 { 1 } else { cfg.bars_per_chord as u32 };
    let mut events: Vec<NoteEvent> = Vec::new();
    let ghost end = piece_ticks(*cfg) + BAR;
    let mut prev_start: Option<u8> = None;
    let n = cfg.chords.len();
    proof {
        lemma_next_chord(0, n as int);
    }
    let mut rep: u32 = 0;
    while rep < repeats
        invariant
            ready(*cfg, pcs@),
            n == cfg.chords.len(),
            repeats == cfg.bars_per_chord,
            rep <= repeats,
            scale_mel.len() <= 256,
            end == piece_ticks(*cfg) + BAR,
            notes_end_by(events@, end),
            vel == 122,
            all_vel(events@, vel),
            pitches_within(events@, 36, 85),
            within(scale_mel@, 65, 85),
            prev_start matches Some(q) ==> 65 <= q <= 85,
            events@.len() == 16 * (rep * n),
            rng.seed() == seed,
            scale_mel@ == spec_notes_in_range(pcs@, 65, 85),
            (events@, rng.requests(), prev_start) == cell_events(plan_of(*cfg), pcs@, seed, rq0, rep as nat),
        decreases repeats - rep,
    {
        let ghost ev0 = events@;
        let ghost rqr = rng.requests();
        let ghost pvr = prev_start;
        let mut ci: usize = 0;
        while ci < n
            invariant
                ready(*cfg, pcs@),
                n == cfg.chords.len(),
                repeats == cfg.bars_per_chord,
                rep < repeats,
                ci <= n,
                scale_mel.len() <= 256,
                end == piece_ticks(*cfg) + BAR,
                notes_end_by(events@, end),
                vel == 122,
                all_vel(events@, vel),
                pitches_within(events@, 36, 85),
                within(scale_mel@, 65, 85),
                prev_start matches Some(q) ==> 65 <= q <= 85,
                events@.len() == 16 * (rep * n + ci),
                rng.seed() == seed,
                scale_mel@ == spec_notes_in_range(pcs@, 65, 85),
                (events@, rng.requests(), prev_start) == (
                    ev0 + cell_row(plan_of(*cfg), pcs@, seed, rqr, pvr, rep as int, ci as nat).0,
                    cell_row(plan_of(*cfg), pcs@, seed, rqr, pvr, rep as int, ci as nat).1,
                    cell_row(plan_of(*cfg), pcs@, seed, rqr, pvr, rep as int, ci as nat).2,
                ),
            decreases n - ci,
        {
            let cpc = chord_root_pc(cfg.key_root, cfg.chords[ci]);
            let r2 = bass_midi(cpc);
            let r3 = r2 + 12;
            let ct = tones_between(pcs, cpc, 65, 85);
            let start = match prev_start {
                Some(p) => nearest(p, if ct.len() == 0 { &scale_mel } else { &ct }),
                None => if ct.len() / 3 < ct.len() { ct[ct.len() / 3] } else { 70 },
            };
            let ghost evc = events@;
            let ghost rqc = rng.requests();
            let mut mel: Vec<u8> = Vec::new();
            let mut p = start;
            let mut j: u32 = 0;
            while j < 8
                invariant
                    j <= 8,
                    mel.len() == j,
                    scale_mel.len() <= 256,
                    within(scale_mel@, 65, 85),
                    65 <= p <= 85,
                    within(mel@, 65, 85),
                    rng.seed() == seed,
                    (mel@, p, rng.requests()) == cell_mel(scale_mel@, seed, rqc, start, j as nat),
                decreases 8 - j,
            {
                mel.push(p);
                let st = if j % 3 == 2 { between(rng, -2, 0) } else { between(rng, 1, 2) };
                p = step(&scale_mel, p, st);
                j = j + 1;
            }
            prev_start = Some(mel[0]);
            let t_bar = rep_start(cfg, rep, ci);
            let ghost rq1 = rng.requests();
            let ghost n0 = events@.len() as int;
            let mut cell: u32 = 0;
            while cell < 2
                invariant
                    cell <= 2,
                    mel.len() == 8,
                    scale_mel.len() <= 256,
                    end < 0x1000_0000,
                    t_bar + BAR <= end - BAR,
                    r2 <= 47,
                    r3 == r2 + 12,
                    notes_end_by(events@, end),
                    vel == 122,
                    all_vel(events@, vel),
                    pitches_within(events@, 36, 85),
                    within(mel@, 65, 85),
                    within(scale_mel@, 65, 85),
                    36 <= r2 <= 47,
                    events@.len() == n0 + 8 * cell,
                    rng.seed() == seed,
                    (events@, rng.requests()) == (
                        evc + cell_cells(scale_mel@, t_bar as int, r2, mel@, rep as int, seed, rq1, cell as nat).0,
                        cell_cells(scale_mel@, t_bar as int, r2, mel@, rep as int, seed, rq1, cell as nat).1,
                    ),
                decreases 2 - cell,
            {
                let t = t_bar + cell * 8 * S;
                let mi = (cell * 4) as usize;
                push_note(&mut events, t, mel[mi], vel, E, Ghost(end));
                push_note(&mut events, t + S, r3, vel, S, Ghost(end));
                push_note(&mut events, t + 2 * S, r2, vel, S, Ghost(end));
                push_note(&mut events, t + 3 * S, mel[mi + 1], vel, E, Ghost(end));
                push_note(&mut events, t + 4 * S, r3, vel, S, Ghost(end));
                push_note(&mut events, t + 5 * S, mel[mi + 2], vel, S, Ghost(end));
                push_note(&mut events, t + 6 * S, mel[mi + 3], vel, S, Ghost(end));
                let last = if rep > 0 {
                    let st = between(rng, 1, 3);
                    step(&scale_mel, mel[mi + 2], st)
                } else {
                    mel[mi + 2]
                };
                push_note(&mut events, t + 7 * S, last, vel, S, Ghost(end));
                assert(events@ =~= evc + cell_cells(scale_mel@, t_bar as int, r2, mel@, rep as int, seed, rq1, (cell + 1) as nat).0);
                cell = cell + 1;
            }
            assert(events@ =~= ev0 + cell_row(plan_of(*cfg), pcs@, seed, rqr, pvr, rep as int, (ci + 1) as nat).0);
            ci = ci + 1;
        }
        proof {
            lemma_next_chord(rep as int, n as int);
        }
        assert(events@ =~= cell_events(plan_of(*cfg), pcs@, seed, rq0, (rep + 1) as nat).0);
        rep = rep + 1;
    }
    assert(repeats * n == n * repeats) by (nonlinear_arith);
    events
}

/// The melody of a cell chord: `j` notes walked from `p` (up one or two degrees,
/// and down up to two after every third), the note reached, and the requests
/// after the steps drawn.
pub open spec fn cell_mel(scale: Seq<u8>, seed: u64, rq: Reqs, p: u8, j: nat) -> (Seq<u8>, u8, Reqs)
    decreases j,
{
    if j == 0 {
        (Seq::empty(), p, rq)
    } else {
        let (m, q, rq1) = cell_mel(scale, seed, rq, p, (j - 1) as nat);
        let (lo, hi) = if (j - 1) % 3 == 2 { (-2int, 0int) } else { (1int, 2int) };
        (m.push(q), spec_step_in_scale(scale, q, between_answer(seed, rq1, lo, hi) as i8), between_req(rq1, lo, hi))
    }
}

/// The first `c` cells of a cell bar at `t` from melody `mel`, the last note of
/// a repetition lifted by a drawn step, and the requests after.
pub open spec fn cell_cells(scale: Seq<u8>, t: int, r2: u8, mel: Seq<u8>, rep: int, seed: u64, rq: Reqs, c: nat) -> (
    Seq<NoteEvent>,
    Reqs,
)
    decreases c,
{
    if c == 0 {
        (Seq::empty(), rq)
    } else {
        let (e, rq1) = cell_cells(scale, t, r2, mel, rep, seed, rq, (c - 1) as nat);
        let b = t + (c - 1) * 192;
        let mi = (c - 1) * 4;
        let r3 = (r2 + 12) as u8;
        let (last, rq2) = if rep > 0 {
            (spec_step_in_scale(scale, mel[mi + 2], between_answer(seed, rq1, 1, 3) as i8), between_req(rq1, 1, 3))
        } else {
            (mel[mi + 2], rq1)
        };
        (
            e + seq![
                note(b, mel[mi], 122, E), note(b + 24, r3, 122, S), note(b + 48, r2, 122, S),
                note(b + 72, mel[mi + 1], 122, E), note(b + 96, r3, 122, S), note(b + 120, mel[mi + 2], 122, S),
                note(b + 144, mel[mi + 3], 122, S), note(b + 168, last, 122, S),
            ],
            rq2,
        )
    }
}

/// Chord `ci` of repetition `rep` of the cell lead: its notes, the requests
/// after them and the melody's first note.
pub open spec fn cell_chord(pl: Plan, pcs: Seq<u8>, seed: u64, rq: Reqs, prev: Option<u8>, rep: int, ci: int) -> (
    Seq<NoteEvent>,
    Reqs,
    Option<u8>,
) {
    let scale = spec_notes_in_range(pcs, 65, 85);
    let cpc = chord_pc(pl, ci);
    let ct = spec_notes_in_range(crate::midi_gen::triad_pcs(pcs, cpc), 65, 85);
    let start = match prev {
        Some(p) => spec_nearest_in_set(p, if ct.len() == 0 { scale } else { ct }),
        None => if ct.len() / 3 < ct.len() { ct[(ct.len() / 3) as int] } else { 70u8 },
    };
    let (mel, _q, rq1) = cell_mel(scale, seed, rq, start, 8);
    let t = (rep * pl.chords.len() + ci) * 384;
    let (e, rq2) = cell_cells(scale, t, (cpc + 36) as u8, mel, rep, seed, rq1, 2);
    (e, rq2, Some(mel[0]))
}

/// The first `k` chords of repetition `rep` of the cell lead.
pub open spec fn cell_row(pl: Plan, pcs: Seq<u8>, seed: u64, rq: Reqs, prev: Option<u8>, rep: int, k: nat) -> (
    Seq<NoteEvent>,
    Reqs,
    Option<u8>,
)
    decreases k,
{
    if k == 0 {
        (Seq::empty(), rq, prev)
    } else {
        let (e, rq1, pv) = cell_row(pl, pcs, seed, rq, prev, rep, (k - 1) as nat);
        let (c, rq2, pv2) = cell_chord(pl, pcs, seed, rq1, pv, rep, k - 1);
        (e + c, rq2, pv2)
    }
}

/// The first `r` repetitions of the progression in the cell lead.
pub open spec fn cell_events(pl: Plan, pcs: Seq<u8>, seed: u64, rq: Reqs, r: nat) -> (Seq<NoteEvent>, Reqs, Option<u8>)
    decreases r,
{
    if r == 0 {
        (Seq::empty(), rq, None)
    } else {
        let (e, rq1, pv) = cell_events(pl, pcs, seed, rq, (r - 1) as nat);
        let (row, rq2, pv2) = cell_row(pl, pcs, seed, rq1, pv, r - 1, pl.chords.len());
        (e + row, rq2, pv2)
    }
}

// ----- Shuffle ---------------------------------------------------

/// Swung bass octaves under a three-note melody, every sixteenth of the bar.
#[verifier::spinoff_prover]
#[verifier::rlimit(40)]
fn gen_shuffle(cfg: &MidiGenConfig, pcs: &Vec<u8>, rng: &mut Draws) -> (r: Vec<NoteEvent>)
    requires
        ready(*cfg, pcs@),
    ensures
        notes_end_by(r@, piece_ticks(*cfg) + BAR),
        lead_shape(LeadType::Shuffle, r@, *cfg),
        final(rng).seed() == old(rng).seed(),
        (r@, final(rng).requests()) == shuffle_events(plan_of(*cfg), pcs@, old(rng).seed(), old(rng).requests(), cfg.chords@.len()),
{
    let ghost seed = rng.seed();
    let ghost rq0 = rng.requests();
    let vel = 122u8;
    let scale_mel = notes_between(pcs, 60, 80);
    let bpc = cfg.bars_per_chord as u32;
    let mut events: Vec<NoteEvent> = Vec::new();
    let ghost end = piece_ticks(*cfg) + BAR;
    let n = cfg.chords.len();
    proof {
        lemma_next_chord(0, bpc as int);
    }
    let mut ci: usize = 0;
    while ci < n
        invariant
            ready(*cfg, pcs@),
            n == cfg.chords.len(),
            bpc == cfg.bars_per_chord,
            ci <= n,
            end == piece_ticks(*cfg) + BAR,
            notes_end_by(events@, end),
            scale_mel.len() <= 256,
            vel == 122,
            all_vel(events@, vel),
            pitches_within(events@, 36, 80),
            within(scale_mel@, 60, 80),
            events@.len() == 21 * (ci * bpc),
            rng.seed() == seed,
            scale_mel@ == spec_notes_in_range(pcs@, 60, 80),
            (events@, rng.requests()) == shuffle_events(plan_of(*cfg), pcs@, seed, rq0, ci as nat),
        decreases n - ci,
    {
        let cpc = chord_root_pc(cfg.key_root, cfg.chords[ci]);
        let b1 = bass_midi(cpc);
        let b2 = b1 + 12;
        let ct = tones_between(pcs, cpc, 60, 80);
        let ma = nearest(if ct.len() / 2 < ct.len() { ct[ct.len() / 2] } else { 66 }, &scale_mel);
        let d1 = between(rng, 1, 2);
        let mb = step(&scale_mel, ma, d1);
        let d2 = between(rng, -3, -1);
        let ml = step(&scale_mel, ma, d2);
        let ghost pitches = (b1, b2, ma, mb, ml);
        let ghost ev0 = events@;
        proof {
            assert(shuffle_pitches(plan_of(*cfg), pcs@, seed, shuffle_events(plan_of(*cfg), pcs@, seed, rq0, ci as nat).1, ci as int) == (
            pitches, rng.requests()));
        }
        let mut bar: u32 = 0;
        while bar < bpc
            invariant
                ready(*cfg, pcs@),
                bpc == cfg.bars_per_chord,
                ci < cfg.chords.len(),
                bar <= bpc,
                end == piece_ticks(*cfg) + BAR,
                notes_end_by(events@, end),
                vel == 122,
                all_vel(events@, vel),
                pitches_within(events@, 36, 80),
                36 <= b1 <= 47,
                b2 == b1 + 12,
                60 <= ma <= 80,
                60 <= mb <= 80,
                60 <= ml <= 80,
                events@.len() == 21 * (ci * bpc + bar),
                pitches == (b1, b2, ma, mb, ml),
                events@ == ev0 + shuffle_bars(plan_of(*cfg), ci as int, pitches, bar as nat),
            decreases bpc - bar,
        {
            let t = bar_start(cfg, ci, bar);
            push_note(&mut events, t, b1, vel, LONG, Ghost(end));
            push_note(&mut events, t, ma, vel, E, Ghost(end));
            push_note(&mut events, t + S, b2, vel, SHORT, Ghost(end));
            push_note(&mut events, t + 2 * S, b1, vel, SHORT, Ghost(end));
            push_note(&mut events, t + 2 * S, mb, vel, S, Ghost(end));
            push_note(&mut events, t + 3 * S, b2, vel, LONG, Ghost(end));
            push_note(&mut events, t + 4 * S, ma, vel, S, Ghost(end));
            push_note(&mut events, t + 5 * S, b1, vel, SHORT, Ghost(end));
            push_note(&mut events, t + 5 * S, ml, vel, S, Ghost(end));
            push_note(&mut events, t + 6 * S, b2, vel, LONG, Ghost(end));
            push_note(&mut events, t + 7 * S, ml, vel, S, Ghost(end));
            push_note(&mut events, t + 8 * S, b1, vel, LONG, Ghost(end));
            push_note(&mut events, t + 9 * S, b2, vel, SHORT, Ghost(end));
            push_note(&mut events, t + 9 * S, ma, vel, S, Ghost(end));
            push_note(&mut events, t + 10 * S, b1, vel, SHORT, Ghost(end));
            push_note(&mut events, t + 10 * S, mb, vel, S, Ghost(end));
            push_note(&mut events, t + 11 * S, b2, vel, LONG, Ghost(end));
            push_note(&mut events, t + 12 * S, ma, vel, S, Ghost(end));
            push_note(&mut events, t + 13 * S, b1, vel, SHORT, Ghost(end));
            push_note(&mut events, t + 14 * S, b2, vel, LONG, Ghost(end));
            push_note(&mut events, t + 15 * S, ml, vel, S, Ghost(end));
            proof {
                let bt = bar_tick(plan_of(*cfg), ci as int, bar as int);
                assert(t == bt);
                assert(events@ =~= ev0 + shuffle_bars(plan_of(*cfg), ci as int, pitches, (bar + 1) as nat));
            }
            bar = bar + 1;
        }
        proof {
            lemma_next_chord(ci as int, bpc as int);
        }
        ci = ci + 1;
    }
    events
}

/// One bar of the shuffle lead from its first tick and its five pitches.
pub open spec fn shuffle_bar(t: int, b1: u8, b2: u8, ma: u8, mb: u8, ml: u8) -> Seq<NoteEvent> {
    seq![
        note(t, b1, 122, LONG), note(t, ma, 122, E), note(t + 24, b2, 122, SHORT), note(t + 48, b1, 122, SHORT),
        note(t + 48, mb, 122, S), note(t + 72, b2, 122, LONG), note(t + 96, ma, 122, S), note(t + 120, b1, 122, SHORT),
        note(t + 120, ml, 122, S), note(t + 144, b2, 122, LONG), note(t + 168, ml, 122, S), note(t + 192, b1, 122, LONG),
        note(t + 216, b2, 122, SHORT), note(t + 216, ma, 122, S), note(t + 240, b1, 122, SHORT), note(t + 240, mb, 122, S),
        note(t + 264, b2, 122, LONG), note(t + 288, ma, 122, S), note(t + 312, b1, 122, SHORT), note(t + 336, b2, 122, LONG),
        note(t + 360, ml, 122, S),
    ]
}

/// The first `k` bars of chord `ci` of the shuffle lead.
pub open spec fn shuffle_bars(pl: Plan, ci: int, p: (u8, u8, u8, u8, u8), k: nat) -> Seq<NoteEvent>
    decreases k,
{
    if k == 0 {
        Seq::empty()
    } else {
        shuffle_bars(pl, ci, p, (k - 1) as nat) + shuffle_bar(bar_tick(pl, ci, k - 1), p.0, p.1, p.2, p.3, p.4)
    }
}

/// The pitches of chord `ci` of the shuffle lead (bass, its octave, and three
/// melody notes) and the requests after drawing them.
pub open spec fn shuffle_pitches(pl: Plan, pcs: Seq<u8>, seed: u64, rq: Reqs, ci: int) -> ((u8, u8, u8, u8, u8), Reqs) {
    let scale = spec_notes_in_range(pcs, 60, 80);
    let cpc = chord_pc(pl, ci);
    let b1 = (cpc + 36) as u8;
    let ct = spec_notes_in_range(crate::midi_gen::triad_pcs(pcs, cpc), 60, 80);
    let ma = spec_nearest_in_set(if ct.len() / 2 < ct.len() { ct[(ct.len() / 2) as int] } else { 66u8 }, scale);
    let mb = spec_step_in_scale(scale, ma, between_answer(seed, rq, 1, 2) as i8);
    let rq1 = between_req(rq, 1, 2);
    let ml = spec_step_in_scale(scale, ma, between_answer(seed, rq1, -3, -1) as i8);
    ((b1, (b1 + 12) as u8, ma, mb, ml), between_req(rq1, -3, -1))
}

/// The first `n` chords of the shuffle lead and the requests after them.
pub open spec fn shuffle_events(pl: Plan, pcs: Seq<u8>, seed: u64, rq: Reqs, n: nat) -> (Seq<NoteEvent>, Reqs)
    decreases n,
{
    if n == 0 {
        (Seq::empty(), rq)
    } else {
        let prev = shuffle_events(pl, pcs, seed, rq, (n - 1) as nat);
        let (p, rq2) = shuffle_pitches(pl, pcs, seed, prev.1, n - 1);
        (prev.0 + shuffle_bars(pl, n - 1, p, pl.bpc), rq2)
    }
}

// ----- ChordArp --------------------------------------------------

/// A three-voice arpeggio (root, fifth, melody) on every sixteenth with swung
/// lengths; with chromaticism the last quarter of the bar may step off.
fn gen_chord_arp(cfg: &MidiGenConfig, pcs: &Vec<u8>, rng: &mut Draws) -> (r: Vec<NoteEvent>)
    requires
        ready(*cfg, pcs@),
        cfg.chromaticism <= 100,
    ensures
        notes_end_by(r@, piece_ticks(*cfg) + BAR),
        lead_shape(LeadType::ChordArp, r@, *cfg),
        final(rng).seed() == old(rng).seed(),
        (r@, final(rng).requests()) == arp_events(plan_of(*cfg), pcs@, old(rng).seed(), old(rng).requests(), cfg.chords@.len()),
{
    let ghost seed = rng.seed();
    let ghost rq0 = rng.requests();
    let vel = 100u8;
    let bpc = cfg.bars_per_chord as u32;
    let mut events: Vec<NoteEvent> = Vec::new();
    let ghost end = piece_ticks(*cfg) + BAR;
    let n = cfg.chords.len();
    proof {
        lemma_next_chord(0, bpc as int);
    }
    let mut ci: usize = 0;
    while ci < n
        invariant
            ready(*cfg, pcs@),
            n == cfg.chords.len(),
            bpc == cfg.bars_per_chord,
            ci <= n,
            end == piece_ticks(*cfg) + BAR,
            notes_end_by(events@, end),
            cfg.chromaticism <= 100,
            vel == 100,
            all_vel(events@, vel),
            pitches_within(events@, 36, 81),
            events@.len() == 16 * (ci * bpc),
            rng.seed() == seed,
            (events@, rng.requests()) == arp_events(plan_of(*cfg), pcs@, seed, rq0, ci as nat),
        decreases n - ci,
    {
        let cpc = chord_root_pc(cfg.key_root, cfg.chords[ci]);
        let root2 = cpc + 36;
        let ct = tones_between(pcs, cpc, 48, 72);
        let fifth = if ct.len() >= 2 { ct[1] } else { root2 + 7 };
        let mel_notes = tones_between(pcs, cpc, 60, 81);
        let mel_a = if mel_notes.len() > 0 { mel_notes[below(rng, mel_notes.len())] } else { cpc + 60 };
        let upper = notes_between(pcs, 60, 81);
        let d = between(rng, -2, 2);
        let mel_b = step(&upper, mel_a, d);
        let ghost pitches = (root2, fifth, mel_a, mel_b);
        let ghost ev0 = events@;
        let ghost rq2 = rng.requests();
        assert(arp_pitches(plan_of(*cfg), pcs@, seed, arp_events(plan_of(*cfg), pcs@, seed, rq0, ci as nat).1, ci as int) == (
        pitches, rq2));
        let mut bar: u32 = 0;
        while bar < bpc
            invariant
                ready(*cfg, pcs@),
                bpc == cfg.bars_per_chord,
                ci < cfg.chords.len(),
                bar <= bpc,
                end == piece_ticks(*cfg) + BAR,
                notes_end_by(events@, end),
                cfg.chromaticism <= 100,
                root2 <= 47,
                vel == 100,
                all_vel(events@, vel),
                pitches_within(events@, 36, 81),
                36 <= root2,
                36 <= fifth <= 72,
                60 <= mel_a <= 81,
                60 <= mel_b <= 81,
                events@.len() == 16 * (ci * bpc + bar),
                rng.seed() == seed,
                pitches == (root2, fifth, mel_a, mel_b),
                (events@, rng.requests()) == (
                    ev0 + arp_bars(plan_of(*cfg), pcs@, ci as int, pitches, seed, rq2, bar as nat).0,
                    arp_bars(plan_of(*cfg), pcs@, ci as int, pitches, seed, rq2, bar as nat).1,
                ),
            decreases bpc - bar,
        {
            let t = bar_start(cfg, ci, bar);
            let ghost base = events@.len() as int;
            let ghost evb = events@;
            let ghost rqb = rng.requests();
            let mut i: u32 = 0;
            while i < 16
                invariant
                    i <= 16,
                    end < 0x1000_0000,
                    t + BAR <= end - BAR,
                    root2 <= 47,
                    cfg.chromaticism <= 100,
                    notes_end_by(events@, end),
                    vel == 100,
                    all_vel(events@, vel),
                    pitches_within(events@, 36, 81),
                    36 <= root2,
                    36 <= fifth <= 72,
                    60 <= mel_a <= 81,
                    60 <= mel_b <= 81,
                    events@.len() == base + i,
                    rng.seed() == seed,
                    pitches == (root2, fifth, mel_a, mel_b),
                    (events@, rng.requests()) == (
                        evb + arp_steps(pcs@, cfg.chromaticism, pitches, t as int, seed, rqb, i as nat).0,
                        arp_steps(pcs@, cfg.chromaticism, pitches, t as int, seed, rqb, i as nat).1,
                    ),
                decreases 16 - i,
            {
                let tick = t + i * S;
                let dur = if i % 2 == 0 { SHORT } else { LONG };
                let k = i % 8;
                let pitch = if k == 0 {
                    root2
                } else if k == 1 {
                    fifth
                } else if k == 2 {
                    mel_a
                } else if k == 3 {
                    root2
                } else if k == 4 {
                    root2 + 12
                } else if k == 5 {
                    fifth
                } else if k == 6 {
                    mel_b
                } else {
                    root2
                };
                let pitch = if i >= 12 && cfg.chromaticism > 0 && chance(rng, cfg.chromaticism as u32, 100) {
                    let around = notes_between(pcs, 55, 81);
                    assert(within(around@, 36, 81));
                    let st = between(rng, -1, 1);
                    step(&around, pitch, st)
                } else {
                    pitch
                };
                push_note(&mut events, tick, pitch, vel, dur, Ghost(end));
                assert(events@ =~= evb + arp_steps(pcs@, cfg.chromaticism, pitches, t as int, seed, rqb, (i + 1) as nat).0);
                i = i + 1;
            }
            assert(t == bar_tick(plan_of(*cfg), ci as int, bar as int));
            assert(events@ =~= ev0 + arp_bars(plan_of(*cfg), pcs@, ci as int, pitches, seed, rq2, (bar + 1) as nat).0);
            bar = bar + 1;
        }
        proof {
            lemma_next_chord(ci as int, bpc as int);
        }
        ci = ci + 1;
    }
    events
}

/// The pitches of chord `ci` of the arpeggio (root, fifth, two melody notes) and
/// the requests after drawing them.
pub open spec fn arp_pitches(pl: Plan, pcs: Seq<u8>, seed: u64, rq: Reqs, ci: int) -> ((u8, u8, u8, u8), Reqs) {
    let cpc = chord_pc(pl, ci);
    let root2 = (cpc + 36) as u8;
    let ct = spec_notes_in_range(crate::midi_gen::triad_pcs(pcs, cpc), 48, 72);
    let fifth = if ct.len() >= 2 { ct[1] } else { (root2 + 7) as u8 };
    let mel = spec_notes_in_range(crate::midi_gen::triad_pcs(pcs, cpc), 60, 81);
    let (mel_a, rq1) = if mel.len() > 0 {
        (mel[below_answer(seed, rq, mel.len() as int)], below_req(rq, mel.len() as int))
    } else {
        ((cpc + 60) as u8, rq)
    };
    let mel_b = spec_step_in_scale(spec_notes_in_range(pcs, 60, 81), mel_a, between_answer(seed, rq1, -2, 2) as i8);
    ((root2, fifth, mel_a, mel_b), between_req(rq1, -2, 2))
}

/// Step `i` of an arpeggio bar at `t` and the requests after its draws: the
/// voice of the step, stepped off by up to one degree in the last quarter with
/// chance `chromaticism` in 100.
pub open spec fn arp_step(pcs: Seq<u8>, chrom: u8, p: (u8, u8, u8, u8), t: int, i: int, seed: u64, rq: Reqs) -> (NoteEvent, Reqs) {
    let (root2, fifth, mel_a, mel_b) = p;
    let k = i % 8;
    let pitch = if k == 0 || k == 3 || k == 7 {
        root2
    } else if k == 1 || k == 5 {
        fifth
    } else if k == 2 {
        mel_a
    } else if k == 4 {
        (root2 + 12) as u8
    } else {
        mel_b
    };
    let dur = if i % 2 == 0 { SHORT } else { LONG };
    if i >= 12 && chrom > 0 {
        let rq1 = chance_req(rq, chrom as int, 100);
        if chance_answer(seed, rq, chrom as int, 100) {
            let st = between_answer(seed, rq1, -1, 1);
            (
                note(t + i * 24, spec_step_in_scale(spec_notes_in_range(pcs, 55, 81), pitch, st as i8), 100, dur),
                between_req(rq1, -1, 1),
            )
        } else {
            (note(t + i * 24, pitch, 100, dur), rq1)
        }
    } else {
        (note(t + i * 24, pitch, 100, dur), rq)
    }
}

/// The first `i` steps of an arpeggio bar.
pub open spec fn arp_steps(pcs: Seq<u8>, chrom: u8, p: (u8, u8, u8, u8), t: int, seed: u64, rq: Reqs, i: nat) -> (Seq<NoteEvent>, Reqs)
    decreases i,
{
    if i == 0 {
        (Seq::empty(), rq)
    } else {
        let (e, rq1) = arp_steps(pcs, chrom, p, t, seed, rq, (i - 1) as nat);
        let (ev, rq2) = arp_step(pcs, chrom, p, t, i - 1, seed, rq1);
        (e.push(ev), rq2)
    }
}

/// The first `k` bars of chord `ci` of the arpeggio.
pub open spec fn arp_bars(pl: Plan, pcs: Seq<u8>, ci: int, p: (u8, u8, u8, u8), seed: u64, rq: Reqs, k: nat) -> (Seq<NoteEvent>, Reqs)
    decreases k,
{
    if k == 0 {
        (Seq::empty(), rq)
    } else {
        let (e, rq1) = arp_bars(pl, pcs, ci, p, seed, rq, (k - 1) as nat);
        let (b, rq2) = arp_steps(pcs, pl.chromaticism, p, bar_tick(pl, ci, k - 1), seed, rq1, 16);
        (e + b, rq2)
    }
}

/// The first `n` chords of the arpeggio and the requests after them.
pub open spec fn arp_events(pl: Plan, pcs: Seq<u8>, seed: u64, rq: Reqs, n: nat) -> (Seq<NoteEvent>, Reqs)
    decreases n,
{
    if n == 0 {
        (Seq::empty(), rq)
    } else {
        let (e, rq1) = arp_events(pl, pcs, seed, rq, (n - 1) as nat);
        let (p, rq2) = arp_pitches(pl, pcs, seed, rq1, n - 1);
        let (b, rq3) = arp_bars(pl, pcs, n - 1, p, seed, rq2, pl.bpc);
        (e + b, rq3)
    }
}

// ----- Chord helpers ---------------------------------------------

/// Appends one note per pitch of `chord`, all at `tick`.
fn push_chord(events: &mut Vec<NoteEvent>, chord: &Vec<u8>, tick: u32, vel: u8, dur: u32, Ghost(end): Ghost<int>)
    requires
        notes_end_by(old(events)@, end),
        tick + dur <= end,
        dur > 0,
    ensures
        notes_end_by(final(events)@, end),
        final(events)@ == old(events)@ + chord@.map_values(|p: u8| NoteEvent { tick, pitch: p, vel, dur }),
        forall|lo: int, hi: int|
            pitches_within(old(events)@, lo, hi) && #[trigger] within(chord@, lo, hi) ==> pitches_within(final(events)@, lo, hi),
{
    let ghost start = events@;
    let mut k: usize = 0;
    while k < chord.len()
        invariant
            k <= chord.len(),
            tick + dur <= end,
            dur > 0,
            notes_end_by(events@, end),
            events@ == start + chord@.take(k as int).map_values(|p: u8| NoteEvent { tick, pitch: p, vel, dur }),
        decreases chord.len() - k,
    {
        push_note(events, tick, chord[k], vel, dur, Ghost(end));
        proof {
            assert(chord@.take(k + 1) =~= chord@.take(k as int).push(chord@[k as int]));
            assert(chord@.take(k + 1).map_values(|p: u8| NoteEvent { tick, pitch: p, vel, dur }) =~= chord@.take(
                k as int,
            ).map_values(|p: u8| NoteEvent { tick, pitch: p, vel, dur }).push(
                NoteEvent { tick, pitch: chord@[k as int], vel, dur },
            ));
        }
        k = k + 1;
    }
    assert(chord@.take(k as int) =~= chord@);
}

/// The voicing after offering `p`: added when new and the voicing holds fewer
/// than `cap` notes.
pub open spec fn with_new(v: Seq<u8>, p: u8, cap: int) -> Seq<u8> {
    if !v.contains(p) && v.len() < cap { v.push(p) } else { v }
}

/// The voicing after offering each note of `notes` in turn.
pub open spec fn with_all_new(v: Seq<u8>, notes: Seq<u8>, cap: int) -> Seq<u8>
    decreases notes.len(),
{
    if notes.len() == 0 {
        v
    } else {
        with_new(with_all_new(v, notes.drop_last(), cap), notes.last(), cap)
    }
}

/// Adds `p` to the voicing when it is new and the voicing has fewer than `cap` notes.
fn add_new(voicing: &mut Vec<u8>, p: u8, cap: usize)
    ensures
        final(voicing)@ == with_new(old(voicing)@, p, cap as int),
        forall|lo: int, hi: int| #[trigger] within(old(voicing)@, lo, hi) && lo <= p <= hi ==> within(final(voicing)@, lo, hi),
{
    if !has_note(voicing, p) && voicing.len() < cap {
        voicing.push(p);
    }
}

/// Adds every note of `notes` that is new, while the voicing has fewer than `cap`.
fn add_all_new(voicing: &mut Vec<u8>, notes: &Vec<u8>, cap: usize)
    ensures
        final(voicing)@ == with_all_new(old(voicing)@, notes@, cap as int),
        final(voicing)@.len() >= old(voicing)@.len(),
        final(voicing)@.len() <= (if old(voicing)@.len() > cap { old(voicing)@.len() as int } else { cap as int }),
        forall|lo: int, hi: int|
            #[trigger] within(old(voicing)@, lo, hi) && within(notes@, lo, hi) ==> within(final(voicing)@, lo, hi),
{
    let ghost start = voicing@;
    let mut k: usize = 0;
    while k < notes.len()
        invariant
            k <= notes.len(),
            voicing@ == with_all_new(start, notes@.take(k as int), cap as int),
            voicing@.len() >= start.len(),
            voicing@.len() <= (if start.len() > cap { start.len() as int } else { cap as int }),
            forall|lo: int, hi: int| #[trigger] within(start, lo, hi) && within(notes@, lo, hi) ==> within(voicing@, lo, hi),
        decreases notes.len() - k,
    {
        add_new(voicing, notes[k], cap);
        proof {
            assert(notes@.take(k + 1).drop_last() =~= notes@.take(k as int));
        }
        k = k + 1;
    }
    assert(notes@.take(k as int) =~= notes@);
}

// ----- GatedStab -------------------------------------------------

/// The five gate templates: the length of the stab on each of eight
/// sixteenths of a half bar, 0 for none.
pub open spec fn gate_table(k: int) -> Seq<u32> {
    if k == 0 {
        seq![12u32, 12, 24, 24, 72, 0, 12, 12]
    } else if k == 1 {
        seq![12u32, 12, 72, 0, 12, 24, 48, 0]
    } else if k == 2 {
        seq![12u32, 12, 12, 12, 12, 0, 72, 48]
    } else if k == 3 {
        seq![24u32, 0, 24, 24, 0, 72, 12, 12]
    } else {
        seq![48u32, 12, 12, 24, 72, 0, 12, 12]
    }
}

/// How many of the first `i` steps of a gate template hold a stab.
pub open spec fn hits(s: Seq<u32>, i: nat) -> nat
    decreases i,
{
    if i == 0 {
        0
    } else {
        hits(s, (i - 1) as nat) + if s[i - 1] != 0 { 1nat } else { 0nat }
    }
}

proof fn lemma_gate_hits(k: int)
    requires
        0 <= k < 5,
    ensures
        hits(gate_table(k), 8) >= 6,
{
    reveal_with_fuel(hits, 9);
}

fn gate_template(k: usize) -> (r: [u32; 8])
    requires
        k < 5,
    ensures
        r@ == gate_table(k as int),
        forall|i: int| 0 <= i < 8 ==> r@[i] <= DE,
{
    if k == 0 {
        [T, T, S, S, DE, 0, T, T]
    } else if k == 1 {
        [T, T, DE, 0, T, S, E, 0]
    } else if k == 2 {
        [T, T, T, T, T, 0, DE, E]
    } else if k == 3 {
        [S, 0, S, S, 0, DE, T, T]
    } else {
        [E, T, T, S, DE, 0, T, T]
    }
}

/// Full chord stabs gated by one of five rhythm templates (twice per bar), all
/// notes of the chord together.
fn gen_gated_stab(cfg: &MidiGenConfig, pcs: &Vec<u8>, rng: &mut Draws) -> (r: Vec<NoteEvent>)
    requires
        ready(*cfg, pcs@),
    ensures
        notes_end_by(r@, piece_ticks(*cfg) + BAR),
        lead_shape(LeadType::GatedStab, r@, *cfg),
        final(rng).seed() == old(rng).seed(),
        (r@, final(rng).requests()) == stab_events(plan_of(*cfg), pcs@, old(rng).seed(), old(rng).requests(), cfg.chords@.len()),
{
    let ghost seed = rng.seed();
    let ghost rq0 = rng.requests();
    let vel = 120u8;
    let bpc = cfg.bars_per_chord as u32;
    let mut events: Vec<NoteEvent> = Vec::new();
    let ghost end = piece_ticks(*cfg) + BAR;
    let n = cfg.chords.len();
    proof {
        lemma_next_chord(0, bpc as int);
    }
    let mut ci: usize = 0;
    while ci < n
        invariant
            ready(*cfg, pcs@),
            n == cfg.chords.len(),
            bpc == cfg.bars_per_chord,
            ci <= n,
            end == piece_ticks(*cfg) + BAR,
            notes_end_by(events@, end),
            vel == 120,
            all_vel(events@, vel),
            pitches_within(events@, 36, 81),
            events@.len() >= 12 * (ci * bpc),
            rng.seed() == seed,
            (events@, rng.requests()) == stab_events(plan_of(*cfg), pcs@, seed, rq0, ci as nat),
        decreases n - ci,
    {
        let cpc = chord_root_pc(cfg.key_root, cfg.chords[ci]);
        let root2 = cpc + 36;
        let root3 = cpc + 48;
        let ct_mid = tones_between(pcs, cpc, 55, 72);
        let ct_hi = tones_between(pcs, cpc, 60, 81);
        proof {
            lemma_tones_nonempty(pcs@, cpc, 60, 81);
        }
        let mut voicing: Vec<u8> = Vec::new();
        voicing.push(root2);
        voicing.push(root3);
        let ghost v0 = seq![root2, root3];
        assert(voicing@ =~= v0);
        if ct_mid.len() > 1 {
            voicing.push(ct_mid[1]);
        }
        let ghost v1 = if ct_mid@.len() > 1 { v0.push(ct_mid@[1]) } else { v0 };
        assert(voicing@ =~= v1);
        voicing.push(ct_hi[0]);
        let ghost v2 = v1.push(ct_hi@[0]);
        assert(voicing@ =~= v2);
        let l = ct_hi.len();
        let a: usize = if l >= 1 { l - 1 } else { 0 };
        let b: usize = if a > 1 { a } else { 1 };
        let idx: usize = if b < l - 1 { b } else { l - 1 };
        let last = ct_hi[idx];
        if !has_note(&voicing, last) {
            voicing.push(last);
        }
        let ghost v3 = if !v2.contains(last) { v2.push(last) } else { v2 };
        assert(voicing@ =~= v3);
        assert(within(voicing@, 36, 81));
        let sorted = sort_notes(&voicing);
        assert(within(sorted@, 36, 81));
        let voicing = dedup_notes(&sorted);
        assert(within(voicing@, 36, 81));
        assert(sorted@.contains(sorted@[0]));
        assert(voicing@.len() >= 1);
        assert(voicing@ == stab_voicing(plan_of(*cfg), pcs@, ci as int));
        let ghost ev0 = events@;
        let kt = below(rng, 5);
        let tmpl = gate_template(kt);
        proof {
            lemma_gate_hits(kt as int);
        }
        let mut bar: u32 = 0;
        while bar < bpc
            invariant
                ready(*cfg, pcs@),
                bpc == cfg.bars_per_chord,
                ci < cfg.chords.len(),
                bar <= bpc,
                end == piece_ticks(*cfg) + BAR,
                notes_end_by(events@, end),
                forall|i: int| 0 <= i < 8 ==> tmpl@[i] <= DE,
                vel == 120,
                all_vel(events@, vel),
                pitches_within(events@, 36, 81),
                events@.len() >= 12 * (ci * bpc + bar),
                voicing@.len() >= 1,
                within(voicing@, 36, 81),
                hits(tmpl@, 8) >= 6,
                events@ == ev0 + stab_bars(plan_of(*cfg), voicing@, tmpl@, ci as int, bar as nat),
            decreases bpc - bar,
        {
            let t = bar_start(cfg, ci, bar);
            let ghost n0 = events@.len() as int;
            let ghost evb = events@;
            let mut half: u32 = 0;
            while half < 2
                invariant
                    half <= 2,
                    end < 0x1000_0000,
                    t + BAR <= end - BAR,
                    forall|i: int| 0 <= i < 8 ==> tmpl@[i] <= DE,
                    notes_end_by(events@, end),
                    vel == 120,
                    all_vel(events@, vel),
                    pitches_within(events@, 36, 81),
                    voicing@.len() >= 1,
                    within(voicing@, 36, 81),
                    hits(tmpl@, 8) >= 6,
                    events@.len() >= n0 + 6 * half,
                    events@ == evb + stab_halves(voicing@, tmpl@, t as int, half as nat),
                decreases 2 - half,
            {
                let base = t + half * 8 * S;
                let ghost h0 = events@.len() as int;
                let ghost evh = events@;
                let mut pos: u32 = 0;
                while pos < 8
                    invariant
                        pos <= 8,
                        half < 2,
                        base == t + half * 8 * S,
                        end < 0x1000_0000,
                        t + BAR <= end - BAR,
                        forall|i: int| 0 <= i < 8 ==> tmpl@[i] <= DE,
                        notes_end_by(events@, end),
                        vel == 120,
                        all_vel(events@, vel),
                        pitches_within(events@, 36, 81),
                        voicing@.len() >= 1,
                        within(voicing@, 36, 81),
                        events@.len() >= h0 + hits(tmpl@, pos as nat),
                        events@ == evh + stab_half(voicing@, tmpl@, base as int, pos as nat),
                    decreases 8 - pos,
                {
                    let dur = tmpl[pos as usize];
                    if dur != 0 {
                        push_chord(&mut events, &voicing, base + pos * S, vel, dur, Ghost(end));
                        assert(chord_at(voicing@, (base + pos * S) as int, vel, dur) =~= voicing@.map_values(
                            |p: u8| NoteEvent { tick: (base + pos * S) as u32, pitch: p, vel, dur },
                        ));
                    }
                    assert(events@ =~= evh + stab_half(voicing@, tmpl@, base as int, (pos + 1) as nat));
                    pos = pos + 1;
                }
                assert(events@ =~= evb + stab_halves(voicing@, tmpl@, t as int, (half + 1) as nat));
                half = half + 1;
            }
            assert(t == bar_tick(plan_of(*cfg), ci as int, bar as int));
            assert(events@ =~= ev0 + stab_bars(plan_of(*cfg), voicing@, tmpl@, ci as int, (bar + 1) as nat));
            bar = bar + 1;
        }
        proof {
            lemma_next_chord(ci as int, bpc as int);
        }
        assert(events@ =~= stab_events(plan_of(*cfg), pcs@, seed, rq0, (ci + 1) as nat).0);
        ci = ci + 1;
    }
    events
}

/// The notes of `chord` struck together at `tick`.
pub open spec fn chord_at(chord: Seq<u8>, tick: int, vel: u8, dur: u32) -> Seq<NoteEvent> {
    chord.map_values(|p: u8| NoteEvent { tick: tick as u32, pitch: p, vel, dur })
}

/// The voicing of chord `ci` of the gated stabs: root, its octave, a middle and
/// a high chord tone and the top chord tone, sorted and each note once.
pub open spec fn stab_voicing(pl: Plan, pcs: Seq<u8>, ci: int) -> Seq<u8> {
    let cpc = chord_pc(pl, ci);
    let ct_mid = spec_notes_in_range(crate::midi_gen::triad_pcs(pcs, cpc), 55, 72);
    let ct_hi = spec_notes_in_range(crate::midi_gen::triad_pcs(pcs, cpc), 60, 81);
    let v0 = seq![(cpc + 36) as u8, (cpc + 48) as u8];
    let v1 = if ct_mid.len() > 1 { v0.push(ct_mid[1]) } else { v0 };
    let v2 = v1.push(ct_hi[0]);
    let l = ct_hi.len() as int;
    let a = if l >= 1 { l - 1 } else { 0 };
    let b = if a > 1 { a } else { 1 };
    let idx = if b < l - 1 { b } else { l - 1 };
    let last = ct_hi[idx];
    let v3 = if !v2.contains(last) { v2.push(last) } else { v2 };
    deduped(insertion_sorted(v3))
}

/// The stabs on the first `pos` sixteenths of a half bar from `base`.
pub open spec fn stab_half(v: Seq<u8>, tmpl: Seq<u32>, base: int, pos: nat) -> Seq<NoteEvent>
    decreases pos,
{
    if pos == 0 {
        Seq::empty()
    } else {
        let prev = stab_half(v, tmpl, base, (pos - 1) as nat);
        let d = tmpl[pos - 1];
        if d != 0 { prev + chord_at(v, base + (pos - 1) * 24, 120, d) } else { prev }
    }
}

/// The first `h` half bars of a stab bar at `t`.
pub open spec fn stab_halves(v: Seq<u8>, tmpl: Seq<u32>, t: int, h: nat) -> Seq<NoteEvent>
    decreases h,
{
    if h == 0 {
        Seq::empty()
    } else {
        stab_halves(v, tmpl, t, (h - 1) as nat) + stab_half(v, tmpl, t + (h - 1) * 192, 8)
    }
}

/// The first `k` bars of chord `ci` of the gated stabs.
pub open spec fn stab_bars(pl: Plan, v: Seq<u8>, tmpl: Seq<u32>, ci: int, k: nat) -> Seq<NoteEvent>
    decreases k,
{
    if k == 0 {
        Seq::empty()
    } else {
        stab_bars(pl, v, tmpl, ci, (k - 1) as nat) + stab_halves(v, tmpl, bar_tick(pl, ci, k - 1), 2)
    }
}

/// The first `n` chords of the gated stabs, each with a drawn gate template.
pub open spec fn stab_events(pl: Plan, pcs: Seq<u8>, seed: u64, rq: Reqs, n: nat) -> (Seq<NoteEvent>, Reqs)
    decreases n,
{
    if n == 0 {
        (Seq::empty(), rq)
    } else {
        let (e, rq1) = stab_events(pl, pcs, seed, rq, (n - 1) as nat);
        let tmpl = gate_table(below_answer(seed, rq1, 5));
        (e + stab_bars(pl, stab_voicing(pl, pcs, n - 1), tmpl, n - 1, pl.bpc), below_req(rq1, 5))
    }
}

// ----- PadChord --------------------------------------------------

proof fn lemma_section_end(ci: int, n: int, bar: int, bpc: int)
    requires
        0 <= ci < n,
        0 <= bar < bpc,
    ensures
        (ci * bpc + bar) * 384 + (bpc - bar) * 384 <= n * bpc * 384,
        bpc * 384 <= n * bpc * 384,
{
    assert((ci * bpc + bar) * 384 + (bpc - bar) * 384 == (ci + 1) * bpc * 384) by (nonlinear_arith);
    assert((ci + 1) * bpc * 384 <= n * bpc * 384) by (nonlinear_arith)
        requires
            0 <= ci < n,
            0 <= bpc,
    ;
    assert(bpc * 384 <= n * bpc * 384) by (nonlinear_arith)
        requires
            1 <= n,
            0 <= bpc,
    ;
}

/// Ticks from the start of bar `bar` of chord `ci` to the end of that chord.
fn section_left(cfg: &MidiGenConfig, ci: usize, bar: u32, t: u32) -> (r: u32)
    requires
        ci < cfg.chords@.len(),
        bar < cfg.bars_per_chord,
        t == (ci * cfg.bars_per_chord + bar) * BAR,
        piece_ticks(*cfg) + BAR < 0x1000_0000,
    ensures
        r == (cfg.bars_per_chord - bar) * BAR,
        t + r <= piece_ticks(*cfg),
        r >= BAR,
{
    proof {
        lemma_section_end(ci as int, cfg.chords@.len() as int, bar as int, cfg.bars_per_chord as int);
    }
    (cfg.bars_per_chord as u32 - bar) * BAR
}

/// Sustained wide chords, one per bar; in half of the pieces some notes hold for
/// two bars or the whole chord (never past the chord's last bar).
fn gen_pad_chord(cfg: &MidiGenConfig, pcs: &Vec<u8>, rng: &mut Draws) -> (r: Vec<NoteEvent>)
    requires
        ready(*cfg, pcs@),
    ensures
        notes_end_by(r@, piece_ticks(*cfg) + BAR),
        lead_shape(LeadType::PadChord, r@, *cfg),
        final(rng).seed() == old(rng).seed(),
        (r@, final(rng).requests()) == pad_events(plan_of(*cfg), pcs@, old(rng).seed(), old(rng).requests()),
{
    let ghost seed = rng.seed();
    let ghost rq0 = rng.requests();
    let vel = 100u8;
    let bpc = cfg.bars_per_chord as u32;
    let use_long = chance(rng, 1, 2);
    let ghost rqa = rng.requests();
    let mut events: Vec<NoteEvent> = Vec::new();
    let ghost end = piece_ticks(*cfg) + BAR;
    let n = cfg.chords.len();
    proof {
        lemma_next_chord(0, bpc as int);
    }
    let mut ci: usize = 0;
    while ci < n
        invariant
            ready(*cfg, pcs@),
            n == cfg.chords.len(),
            bpc == cfg.bars_per_chord,
            ci <= n,
            end == piece_ticks(*cfg) + BAR,
            notes_end_by(events@, end),
            vel == 100,
            all_vel(events@, vel),
            pitches_within(events@, 36, 79),
            2 * (ci * bpc) <= events@.len() <= 7 * (ci * bpc),
            rng.seed() == seed,
            use_long == chance_answer(seed, rq0, 1, 2),
            rqa == chance_req(rq0, 1, 2),
            (events@, rng.requests()) == pad_chords(plan_of(*cfg), pcs@, use_long, seed, rqa, ci as nat),
        decreases n - ci,
    {
        let cpc = chord_root_pc(cfg.key_root, cfg.chords[ci]);
        let root2 = cpc + 36;
        let root3 = cpc + 48;
        let scale_notes = notes_between(pcs, 55, 79);
        let ct = tones_between(pcs, cpc, 55, 79);
        let mut voicing: Vec<u8> = Vec::new();
        voicing.push(root2);
        voicing.push(root3);
        let ghost rqc = rng.requests();
        let ghost v0 = seq![root2, root3];
        assert(voicing@ =~= v0);
        assert(within(scale_notes@, 36, 79));
        let fifth = step(&scale_notes, root3, 4);
        if !has_note(&voicing, fifth) {
            voicing.push(fifth);
        }
        assert(within(voicing@, 36, 79));
        assert(within(ct@, 36, 79));
        add_all_new(&mut voicing, &ct, 6);
        if chance(rng, 30, 100) && scale_notes.len() > 0 {
            let color = scale_notes[below(rng, scale_notes.len())];
            assert(within(voicing@, 36, 79));
            add_new(&mut voicing, color, 7);
        }
        assert(within(voicing@, 36, 79));
        let voicing = sort_notes(&voicing);
        assert((voicing@, rng.requests()) == pad_voicing(plan_of(*cfg), pcs@, ci as int, seed, rqc));
        let ghost ev0 = events@;
        let ghost rqv = rng.requests();
        let mut bar: u32 = 0;
        while bar < bpc
            invariant
                ready(*cfg, pcs@),
                bpc == cfg.bars_per_chord,
                ci < cfg.chords.len(),
                bar <= bpc,
                end == piece_ticks(*cfg) + BAR,
                notes_end_by(events@, end),
                vel == 100,
                all_vel(events@, vel),
                pitches_within(events@, 36, 79),
                2 * (ci * bpc + bar) <= events@.len() <= 7 * (ci * bpc + bar),
                2 <= voicing@.len() <= 7,
                within(voicing@, 36, 79),
                rng.seed() == seed,
                (events@, rng.requests()) == (
                    ev0 + pad_bars(plan_of(*cfg), voicing@, ci as int, use_long, seed, rqv, bar as nat).0,
                    pad_bars(plan_of(*cfg), voicing@, ci as int, use_long, seed, rqv, bar as nat).1,
                ),
            decreases bpc - bar,
        {
            let t = bar_start(cfg, ci, bar);
            let remaining = section_left(cfg, ci, bar, t);
            let ghost n0 = events@.len() as int;
            let ghost evb = events@;
            let ghost rqb = rng.requests();
            let mut k: usize = 0;
            while k < voicing.len()
                invariant
                    k <= voicing.len(),
                    within(voicing@, 36, 79),
                    bpc == cfg.bars_per_chord,
                    1 <= bpc <= 255,
                    t + remaining <= end - BAR,
                    remaining >= BAR,
                    end < 0x1000_0000,
                    notes_end_by(events@, end),
                    vel == 100,
                    all_vel(events@, vel),
                    pitches_within(events@, 36, 79),
                    events@.len() == n0 + k,
                    rng.seed() == seed,
                    (events@, rng.requests()) == (
                        evb + pad_notes(voicing@, t as int, use_long, bpc as nat, remaining as int, seed, rqb, k as nat).0,
                        pad_notes(voicing@, t as int, use_long, bpc as nat, remaining as int, seed, rqb, k as nat).1,
                    ),
                decreases voicing.len() - k,
            {
                let dur = if use_long {
                    let pick = below_u8(rng, 4);
                    if pick == 0 {
                        BAR * 2
                    } else if pick == 1 {
                        BAR * (if bpc < 4 { bpc } else { 4 })
                    } else {
                        BAR
                    }
                } else {
                    BAR
                };
                let dur = if dur < remaining { dur } else { remaining };
                push_note(&mut events, t, voicing[k], vel, dur, Ghost(end));
                assert(events@ =~= evb + pad_notes(voicing@, t as int, use_long, bpc as nat, remaining as int, seed, rqb, (k + 1) as nat).0);
                k = k + 1;
            }
            assert(t == bar_tick(plan_of(*cfg), ci as int, bar as int));
            assert(events@ =~= ev0 + pad_bars(plan_of(*cfg), voicing@, ci as int, use_long, seed, rqv, (bar + 1) as nat).0);
            bar = bar + 1;
        }
        proof {
            lemma_next_chord(ci as int, bpc as int);
        }
        ci = ci + 1;
    }
    events
}

/// The voicing of chord `ci` of the pad (root, octave, fifth, chord tones up to
/// six notes and sometimes a drawn colour note), sorted, and the requests after.
pub open spec fn pad_voicing(pl: Plan, pcs: Seq<u8>, ci: int, seed: u64, rq: Reqs) -> (Seq<u8>, Reqs) {
    let cpc = chord_pc(pl, ci);
    let root3 = (cpc + 48) as u8;
    let scale = spec_notes_in_range(pcs, 55, 79);
    let ct = spec_notes_in_range(crate::midi_gen::triad_pcs(pcs, cpc), 55, 79);
    let v0 = seq![(cpc + 36) as u8, root3];
    let fifth = spec_step_in_scale(scale, root3, 4);
    let v1 = if !v0.contains(fifth) { v0.push(fifth) } else { v0 };
    let v2 = with_all_new(v1, ct, 6);
    let rq1 = chance_req(rq, 30, 100);
    if chance_answer(seed, rq, 30, 100) && scale.len() > 0 {
        let color = scale[below_answer(seed, rq1, scale.len() as int)];
        (insertion_sorted(with_new(v2, color, 7)), below_req(rq1, scale.len() as int))
    } else {
        (insertion_sorted(v2), rq1)
    }
}

/// The first `k` notes of a pad bar at `t`, each held a bar, or (with `long`)
/// two bars or the chord's length as drawn, never past `remaining` ticks.
pub open spec fn pad_notes(v: Seq<u8>, t: int, long: bool, bpc: nat, remaining: int, seed: u64, rq: Reqs, k: nat) -> (
    Seq<NoteEvent>,
    Reqs,
)
    decreases k,
{
    if k == 0 {
        (Seq::empty(), rq)
    } else {
        let (e, rq1) = pad_notes(v, t, long, bpc, remaining, seed, rq, (k - 1) as nat);
        let (dur, rq2) = if long {
            let pick = below_u8_answer(seed, rq1, 4);
            (
                if pick == 0 { 768int } else if pick == 1 { 384 * (if bpc < 4 { bpc as int } else { 4 }) } else { 384 },
                below_u8_req(rq1, 4),
            )
        } else {
            (384int, rq1)
        };
        (e.push(note(t, v[k - 1], 100, (if dur < remaining { dur } else { remaining }) as u32)), rq2)
    }
}

/// The first `k` bars of chord `ci` of the pad.
pub open spec fn pad_bars(pl: Plan, v: Seq<u8>, ci: int, long: bool, seed: u64, rq: Reqs, k: nat) -> (Seq<NoteEvent>, Reqs)
    decreases k,
{
    if k == 0 {
        (Seq::empty(), rq)
    } else {
        let (e, rq1) = pad_bars(pl, v, ci, long, seed, rq, (k - 1) as nat);
        let (b, rq2) = pad_notes(v, bar_tick(pl, ci, k - 1), long, pl.bpc, (pl.bpc - (k - 1)) * 384, seed, rq1, v.len());
        (e + b, rq2)
    }
}

/// The first `n` chords of the pad, with the long-note choice `long`.
pub open spec fn pad_chords(pl: Plan, pcs: Seq<u8>, long: bool, seed: u64, rq: Reqs, n: nat) -> (Seq<NoteEvent>, Reqs)
    decreases n,
{
    if n == 0 {
        (Seq::empty(), rq)
    } else {
        let (e, rq1) = pad_chords(pl, pcs, long, seed, rq, (n - 1) as nat);
        let (v, rq2) = pad_voicing(pl, pcs, n - 1, seed, rq1);
        let (b, rq3) = pad_bars(pl, v, n - 1, long, seed, rq2, pl.bpc);
        (e + b, rq3)
    }
}

/// The pad: whether notes may be held long is drawn once, then each chord.
pub open spec fn pad_events(pl: Plan, pcs: Seq<u8>, seed: u64, rq: Reqs) -> (Seq<NoteEvent>, Reqs) {
    pad_chords(pl, pcs, chance_answer(seed, rq, 1, 2), seed, chance_req(rq, 1, 2), pl.chords.len())
}

// ----- DeepBass --------------------------------------------------

/// Sustained roots: a whole note per bar, or the whole chord held, with an
/// occasional fifth as a half note on beat three.
fn gen_deep_bass(cfg: &MidiGenConfig, pcs: &Vec<u8>, rng: &mut Draws) -> (r: Vec<NoteEvent>)
    requires
        ready(*cfg, pcs@),
    ensures
        notes_end_by(r@, piece_ticks(*cfg) + BAR),
        lead_shape(LeadType::DeepBass, r@, *cfg),
        final(rng).seed() == old(rng).seed(),
        (r@, final(rng).requests()) == deep_events(plan_of(*cfg), pcs@, old(rng).seed(), old(rng).requests(), cfg.chords@.len()),
{
    let ghost seed = rng.seed();
    let ghost rq0 = rng.requests();
    let vel = 100u8;
    let bpc = cfg.bars_per_chord as u32;
    let mut events: Vec<NoteEvent> = Vec::new();
    let ghost end = piece_ticks(*cfg) + BAR;
    let n = cfg.chords.len();
    proof {
        lemma_next_chord(0, bpc as int);
    }
    let mut ci: usize = 0;
    while ci < n
        invariant
            ready(*cfg, pcs@),
            n == cfg.chords.len(),
            bpc == cfg.bars_per_chord,
            ci <= n,
            vel == 100,
            end == piece_ticks(*cfg) + BAR,
            notes_end_by(events@, end),
            vels_within(events@, 90, 100),
            pitches_within(events@, 36, 55),
            ci <= events@.len() <= 2 * (ci * bpc),
            rng.seed() == seed,
            (events@, rng.requests()) == deep_events(plan_of(*cfg), pcs@, seed, rq0, ci as nat),
        decreases n - ci,
    {
        let cpc = chord_root_pc(cfg.key_root, cfg.chords[ci]);
        let root = cpc + 36;
        let ghost ev0 = events@;
        let ghost rqc = rng.requests();
        let mut bar: u32 = 0;
        while bar < bpc
            invariant
                ready(*cfg, pcs@),
                bpc == cfg.bars_per_chord,
                ci < cfg.chords.len(),
                bar <= bpc,
                end == piece_ticks(*cfg) + BAR,
                notes_end_by(events@, end),
                36 <= root <= 47,
                vel == 100,
                vels_within(events@, 90, 100),
                pitches_within(events@, 36, 55),
                ci + (if bar > 0 { 1int } else { 0int }) <= events@.len() <= 2 * (ci * bpc + bar),
                rng.seed() == seed,
                cpc == chord_pc(plan_of(*cfg), ci as int),
                root == cpc + 36,
                events@ == ev0 + deep_bars(plan_of(*cfg), pcs@, ci as int, seed, rqc, bar as nat).0,
                rng.requests() == deep_bars(plan_of(*cfg), pcs@, ci as int, seed, rqc, bar as nat).1,
            decreases bpc - bar,
        {
            let t = bar_start(cfg, ci, bar);
            let ghost evb = events@;
            let ghost rqb = rng.requests();
            let held: Option<u32> = if bpc > 1 && bar == 0 && chance(rng, 40, 100) {
                Some(BAR * bpc)
            } else if bar == 0 || !chance(rng, 40, 100) {
                Some(BAR)
            } else {
                None
            };
            if let Some(dur) = held {
                let remaining = section_left(cfg, ci, bar, t);
                push_note(&mut events, t, root, vel, if dur < remaining { dur } else { remaining }, Ghost(end));
                if chance(rng, 20, 100) {
                    let low = notes_between(pcs, 36, 55);
                    let fifth = step(&low, root, 4);
                    push_note(&mut events, t + 2 * Q, fifth, vel - 10, Q * 2, Ghost(end));
                }
            }
            proof {
                let db = deep_bar(plan_of(*cfg), pcs@, ci as int, bar as int, seed, rqb);
                assert(t == bar_tick(plan_of(*cfg), ci as int, bar as int));
                assert(events@ =~= evb + db.0);
                assert(rng.requests() == db.1);
                assert(events@ =~= ev0 + deep_bars(plan_of(*cfg), pcs@, ci as int, seed, rqc, (bar + 1) as nat).0);
            }
            bar = bar + 1;
        }
        proof {
            lemma_next_chord(ci as int, bpc as int);
        }
        ci = ci + 1;
    }
    events
}

/// How long the root of bar `bar` is held (`None`: the bar is left empty), and
/// the requests after the coin flips that decide it.
pub open spec fn deep_held(bpc: nat, bar: int, seed: u64, rq: Reqs) -> (Option<int>, Reqs) {
    if bpc > 1 && bar == 0 {
        if chance_answer(seed, rq, 40, 100) {
            (Some((384 * bpc) as int), chance_req(rq, 40, 100))
        } else {
            (Some(384), chance_req(rq, 40, 100))
        }
    } else if bar == 0 {
        (Some(384), rq)
    } else if !chance_answer(seed, rq, 40, 100) {
        (Some(384), chance_req(rq, 40, 100))
    } else {
        (None, chance_req(rq, 40, 100))
    }
}

/// Bar `bar` of chord `ci` of the deep-bass lead and the requests after it.
pub open spec fn deep_bar(pl: Plan, pcs: Seq<u8>, ci: int, bar: int, seed: u64, rq: Reqs) -> (Seq<NoteEvent>, Reqs) {
    let root = (chord_pc(pl, ci) + 36) as u8;
    let t = bar_tick(pl, ci, bar);
    let (held, rq1) = deep_held(pl.bpc, bar, seed, rq);
    match held {
        Some(dur) => {
            let remaining = (pl.bpc - bar) * 384;
            let first = seq![note(t, root, 100, (if dur < remaining { dur } else { remaining }) as u32)];
            let fifth = spec_step_in_scale(spec_notes_in_range(pcs, 36, 55), root, 4);
            if chance_answer(seed, rq1, 20, 100) {
                (first.push(note(t + 192, fifth, 90, 192)), chance_req(rq1, 20, 100))
            } else {
                (first, chance_req(rq1, 20, 100))
            }
        },
        None => (Seq::empty(), rq1),
    }
}

/// The first `k` bars of chord `ci` of the deep-bass lead.
pub open spec fn deep_bars(pl: Plan, pcs: Seq<u8>, ci: int, seed: u64, rq: Reqs, k: nat) -> (Seq<NoteEvent>, Reqs)
    decreases k,
{
    if k == 0 {
        (Seq::empty(), rq)
    } else {
        let prev = deep_bars(pl, pcs, ci, seed, rq, (k - 1) as nat);
        let (e, rq2) = deep_bar(pl, pcs, ci, k - 1, seed, prev.1);
        (prev.0 + e, rq2)
    }
}

/// The first `n` chords of the deep-bass lead and the requests after them.
pub open spec fn deep_events(pl: Plan, pcs: Seq<u8>, seed: u64, rq: Reqs, n: nat) -> (Seq<NoteEvent>, Reqs)
    decreases n,
{
    if n == 0 {
        (Seq::empty(), rq)
    } else {
        let prev = deep_events(pl, pcs, seed, rq, (n - 1) as nat);
        let bars = deep_bars(pl, pcs, n - 1, seed, prev.1, pl.bpc);
        (prev.0 + bars.0, bars.1)
    }
}

// ----- Progressive -----------------------------------------------

/// The full chord (four to seven notes) on every eighth note.
fn gen_progressive(cfg: &MidiGenConfig, pcs: &Vec<u8>, rng: &mut Draws) -> (r: Vec<NoteEvent>)
    requires
        ready(*cfg, pcs@),
    ensures
        notes_end_by(r@, piece_ticks(*cfg) + BAR),
        lead_shape(LeadType::Progressive, r@, *cfg),
        final(rng).seed() == old(rng).seed(),
        (r@, final(rng).requests()) == prog_events(plan_of(*cfg), pcs@, old(rng).seed(), old(rng).requests(), cfg.chords@.len()),
{
    let ghost seed = rng.seed();
    let ghost rq0 = rng.requests();
    let vel = 105u8;
    let bpc = cfg.bars_per_chord as u32;
    let mut events: Vec<NoteEvent> = Vec::new();
    let ghost end = piece_ticks(*cfg) + BAR;
    let n = cfg.chords.len();
    proof {
        lemma_next_chord(0, bpc as int);
    }
    let mut ci: usize = 0;
    while ci < n
        invariant
            ready(*cfg, pcs@),
            n == cfg.chords.len(),
            bpc == cfg.bars_per_chord,
            ci <= n,
            end == piece_ticks(*cfg) + BAR,
            notes_end_by(events@, end),
            vel == 105,
            all_vel(events@, vel),
            pitches_within(events@, 36, 79),
            all_dur(events@, E),
            16 * (ci * bpc) <= events@.len() <= 56 * (ci * bpc),
            rng.seed() == seed,
            (events@, rng.requests()) == prog_events(plan_of(*cfg), pcs@, seed, rq0, ci as nat),
        decreases n - ci,
    {
        let cpc = chord_root_pc(cfg.key_root, cfg.chords[ci]);
        let root2 = cpc + 36;
        let root3 = cpc + 48;
        let ct_mid = tones_between(pcs, cpc, 48, 67);
        let ct_hi = tones_between(pcs, cpc, 60, 79);
        let mut voicing: Vec<u8> = Vec::new();
        voicing.push(root2);
        voicing.push(root3);
        let ghost rqc = rng.requests();
        assert(voicing@ =~= seq![root2, root3]);
        let scale = notes_between(pcs, 48, 72);
        let fifth = step(&scale, root3, 4);
        if !has_note(&voicing, fifth) {
            voicing.push(fifth);
        }
        assert(within(voicing@, 36, 79));
        assert(within(ct_mid@, 36, 79));
        assert(within(ct_hi@, 36, 79));
        add_all_new(&mut voicing, &ct_mid, 6);
        add_all_new(&mut voicing, &ct_hi, 6);
        if chance(rng, 25, 100) {
            let sn = notes_between(pcs, 60, 75);
            if sn.len() > 0 {
                let color = sn[below(rng, sn.len())];
                assert(within(voicing@, 36, 79));
                add_new(&mut voicing, color, 7);
            }
        }
        assert(within(voicing@, 36, 79));
        let voicing = sort_notes(&voicing);
        assert((voicing@, rng.requests()) == prog_voicing(plan_of(*cfg), pcs@, ci as int, seed, rqc));
        let ghost ev0 = events@;
        let mut bar: u32 = 0;
        while bar < bpc
            invariant
                ready(*cfg, pcs@),
                bpc == cfg.bars_per_chord,
                ci < cfg.chords.len(),
                bar <= bpc,
                end == piece_ticks(*cfg) + BAR,
                notes_end_by(events@, end),
                vel == 105,
                all_vel(events@, vel),
                pitches_within(events@, 36, 79),
                all_dur(events@, E),
                16 * (ci * bpc + bar) <= events@.len() <= 56 * (ci * bpc + bar),
                2 <= voicing@.len() <= 7,
                within(voicing@, 36, 79),
                rng.seed() == seed,
                (events@, rng.requests()) == (
                    ev0 + prog_bars(plan_of(*cfg), voicing@, ci as int, bar as nat),
                    prog_events(plan_of(*cfg), pcs@, seed, rq0, (ci + 1) as nat).1,
                ),
                prog_events(plan_of(*cfg), pcs@, seed, rq0, (ci + 1) as nat).0 == prog_events(
                    plan_of(*cfg),
                    pcs@,
                    seed,
                    rq0,
                    ci as nat,
                ).0 + prog_bars(plan_of(*cfg), voicing@, ci as int, bpc as nat),
                ev0 == prog_events(plan_of(*cfg), pcs@, seed, rq0, ci as nat).0,
            decreases bpc - bar,
        {
            let t = bar_start(cfg, ci, bar);
            let ghost n0 = events@.len() as int;
            let ghost evb = events@;
            let mut beat: u32 = 0;
            while beat < 8
                invariant
                    beat <= 8,
                    end < 0x1000_0000,
                    t + BAR <= end - BAR,
                    notes_end_by(events@, end),
                    vel == 105,
                    all_vel(events@, vel),
                    pitches_within(events@, 36, 79),
                    all_dur(events@, E),
                    2 <= voicing@.len() <= 7,
                    within(voicing@, 36, 79),
                    n0 + 2 * beat <= events@.len() <= n0 + 7 * beat,
                    events@ == evb + prog_beats(voicing@, t as int, beat as nat),
                decreases 8 - beat,
            {
                push_chord(&mut events, &voicing, t + beat * E, vel, E, Ghost(end));
                assert(chord_at(voicing@, (t + beat * E) as int, vel, E) =~= voicing@.map_values(
                    |p: u8| NoteEvent { tick: (t + beat * E) as u32, pitch: p, vel, dur: E },
                ));
                assert(events@ =~= evb + prog_beats(voicing@, t as int, (beat + 1) as nat));
                beat = beat + 1;
            }
            assert(t == bar_tick(plan_of(*cfg), ci as int, bar as int));
            assert(events@ =~= ev0 + prog_bars(plan_of(*cfg), voicing@, ci as int, (bar + 1) as nat));
            bar = bar + 1;
        }
        proof {
            lemma_next_chord(ci as int, bpc as int);
        }
        ci = ci + 1;
    }
    events
}

/// The voicing of chord `ci` of the progressive lead, sorted, and the requests
/// after its colour-note draws.
pub open spec fn prog_voicing(pl: Plan, pcs: Seq<u8>, ci: int, seed: u64, rq: Reqs) -> (Seq<u8>, Reqs) {
    let cpc = chord_pc(pl, ci);
    let root3 = (cpc + 48) as u8;
    let ct_mid = spec_notes_in_range(crate::midi_gen::triad_pcs(pcs, cpc), 48, 67);
    let ct_hi = spec_notes_in_range(crate::midi_gen::triad_pcs(pcs, cpc), 60, 79);
    let v0 = seq![(cpc + 36) as u8, root3];
    let fifth = spec_step_in_scale(spec_notes_in_range(pcs, 48, 72), root3, 4);
    let v1 = if !v0.contains(fifth) { v0.push(fifth) } else { v0 };
    let v2 = with_all_new(with_all_new(v1, ct_mid, 6), ct_hi, 6);
    let rq1 = chance_req(rq, 25, 100);
    let sn = spec_notes_in_range(pcs, 60, 75);
    if chance_answer(seed, rq, 25, 100) && sn.len() > 0 {
        let color = sn[below_answer(seed, rq1, sn.len() as int)];
        (insertion_sorted(with_new(v2, color, 7)), below_req(rq1, sn.len() as int))
    } else {
        (insertion_sorted(v2), rq1)
    }
}

/// The first `b` eighth-note chords of a bar at `t`.
pub open spec fn prog_beats(v: Seq<u8>, t: int, b: nat) -> Seq<NoteEvent>
    decreases b,
{
    if b == 0 {
        Seq::empty()
    } else {
        prog_beats(v, t, (b - 1) as nat) + chord_at(v, t + (b - 1) * 48, 105, E)
    }
}

/// The first `k` bars of chord `ci` of the progressive lead.
pub open spec fn prog_bars(pl: Plan, v: Seq<u8>, ci: int, k: nat) -> Seq<NoteEvent>
    decreases k,
{
    if k == 0 {
        Seq::empty()
    } else {
        prog_bars(pl, v, ci, (k - 1) as nat) + prog_beats(v, bar_tick(pl, ci, k - 1), 8)
    }
}

/// The first `n` chords of the progressive lead.
pub open spec fn prog_events(pl: Plan, pcs: Seq<u8>, seed: u64, rq: Reqs, n: nat) -> (Seq<NoteEvent>, Reqs)
    decreases n,
{
    if n == 0 {
        (Seq::empty(), rq)
    } else {
        let (e, rq1) = prog_events(pl, pcs, seed, rq, (n - 1) as nat);
        let (v, rq2) = prog_voicing(pl, pcs, n - 1, seed, rq1);
        (e + prog_bars(pl, v, n - 1, pl.bpc), rq2)
    }
}

// ----- Trill -----------------------------------------------------

/// Thirty-second-note runs, trills or mixed run-and-turn groups, one kind per
/// bar, each bar starting where the chord's run starts.
/// Appends one trill bar from `start` at `t` and hands back the pitch it ends on.
fn trill_bar_notes(events: &mut Vec<NoteEvent>, rng: &mut Draws, scale_mel: &Vec<u8>, t_bar: u32, start: u8, Ghost(end): Ghost<int>) -> (p: u8)
    requires
        notes_end_by(old(events)@, end),
        end < 0x1000_0000,
        t_bar + BAR <= end - BAR,
        scale_mel.len() <= 256,
        within(scale_mel@, 60, 84),
        60 <= start <= 84,
        all_vel(old(events)@, 110),
        all_dur(old(events)@, T),
        pitches_within(old(events)@, 60, 84),
    ensures
        notes_end_by(final(events)@, end),
        all_vel(final(events)@, 110),
        all_dur(final(events)@, T),
        pitches_within(final(events)@, 60, 84),
        final(events)@.len() == old(events)@.len() + 32,
        60 <= p <= 84,
        final(rng).seed() == old(rng).seed(),
        (final(events)@, p, final(rng).requests()) == (
            old(events)@ + trill_bar(scale_mel@, t_bar as int, start, old(rng).seed(), old(rng).requests()).0,
            trill_bar(scale_mel@, t_bar as int, start, old(rng).seed(), old(rng).requests()).1,
            trill_bar(scale_mel@, t_bar as int, start, old(rng).seed(), old(rng).requests()).2,
        ),
{
    let vel = 110u8;
    let ghost seed = old(rng).seed();
    let ghost evb = events@;
    let ghost n0 = events@.len() as int;
    let mut p = start;
    let kind = below_u8(rng, 3);
    let ghost rq1 = rng.requests();
    if kind == 0 {
        let mut i: u32 = 0;
        while i < 32
            invariant
                i <= 32,
                scale_mel.len() <= 256,
                end < 0x1000_0000,
                t_bar + BAR <= end - BAR,
                notes_end_by(events@, end),
                vel == 110,
                all_vel(events@, vel),
                all_dur(events@, T),
                pitches_within(events@, 60, 84),
                within(scale_mel@, 60, 84),
                60 <= p <= 84,
                events@.len() == n0 + i,
                (events@, p) == (evb + trill_run(scale_mel@, t_bar as int, start, i as nat).0, trill_run(
                    scale_mel@,
                    t_bar as int,
                    start,
                    i as nat,
                ).1),
            decreases 32 - i,
        {
            let st: i8 = if i < 16 { 1 } else { -1 };
            p = step(scale_mel, p, st);
            push_note(events, t_bar + i * T, p, vel, T, Ghost(end));
            assert(events@ =~= evb + trill_run(scale_mel@, t_bar as int, start, (i + 1) as nat).0);
            i = i + 1;
        }
    } else if kind == 1 {
        let p2 = step(scale_mel, p, 1);
        let mut i: u32 = 0;
        while i < 32
            invariant
                60 <= p2 <= 84,
                i <= 32,
                end < 0x1000_0000,
                t_bar + BAR <= end - BAR,
                notes_end_by(events@, end),
                vel == 110,
                all_vel(events@, vel),
                all_dur(events@, T),
                pitches_within(events@, 60, 84),
                within(scale_mel@, 60, 84),
                60 <= p <= 84,
                p == start,
                events@.len() == n0 + i,
                events@ == evb + trill_alternate(t_bar as int, start, p2, i as nat),
            decreases 32 - i,
        {
            let pitch = if i % 2 == 0 { p } else { p2 };
            push_note(events, t_bar + i * T, pitch, vel, T, Ghost(end));
            assert(events@ =~= evb + trill_alternate(t_bar as int, start, p2, (i + 1) as nat));
            i = i + 1;
        }
        let d = between(rng, 1, 3);
        p = step(scale_mel, p, d);
    } else {
        let mut group: u32 = 0;
        while group < 8
            invariant
                group <= 8,
                scale_mel.len() <= 256,
                end < 0x1000_0000,
                t_bar + BAR <= end - BAR,
                notes_end_by(events@, end),
                vel == 110,
                all_vel(events@, vel),
                all_dur(events@, T),
                pitches_within(events@, 60, 84),
                within(scale_mel@, 60, 84),
                60 <= p <= 84,
                events@.len() == n0 + 4 * group,
                rng.seed() == seed,
                (events@, p, rng.requests()) == (
                    evb + trill_groups(scale_mel@, t_bar as int, start, seed, rq1, group as nat).0,
                    trill_groups(scale_mel@, t_bar as int, start, seed, rq1, group as nat).1,
                    trill_groups(scale_mel@, t_bar as int, start, seed, rq1, group as nat).2,
                ),
            decreases 8 - group,
        {
            let base = t_bar + group * 4 * T;
            let ghost evg = events@;
            let ghost pg = p;
            let mut j: u32 = 0;
            while j < 3
                invariant
                    j <= 3,
                    group < 8,
                    base == t_bar + group * 4 * T,
                    scale_mel.len() <= 256,
                    end < 0x1000_0000,
                    t_bar + BAR <= end - BAR,
                    notes_end_by(events@, end),
                    vel == 110,
                    all_vel(events@, vel),
                    all_dur(events@, T),
                    pitches_within(events@, 60, 84),
                    within(scale_mel@, 60, 84),
                    60 <= p <= 84,
                    events@.len() == n0 + 4 * group + j,
                    (events@, p) == (evg + trill_climb(scale_mel@, base as int, pg, j as nat).0, trill_climb(
                        scale_mel@,
                        base as int,
                        pg,
                        j as nat,
                    ).1),
                decreases 3 - j,
            {
                p = step(scale_mel, p, 1);
                push_note(events, base + j * T, p, vel, T, Ghost(end));
                assert(events@ =~= evg + trill_climb(scale_mel@, base as int, pg, (j + 1) as nat).0);
                j = j + 1;
            }
            let turn: i8 = if chance(rng, 1, 2) { -1 } else { 0 };
            let tp = step(scale_mel, p, turn);
            push_note(events, base + 3 * T, tp, vel, T, Ghost(end));
            assert(events@ =~= evb + trill_groups(scale_mel@, t_bar as int, start, seed, rq1, (group + 1) as nat).0);
            group = group + 1;
        }
    }
    p
}

fn gen_trill(cfg: &MidiGenConfig, pcs: &Vec<u8>, rng: &mut Draws) -> (r: Vec<NoteEvent>)
    requires
        ready(*cfg, pcs@),
    ensures
        notes_end_by(r@, piece_ticks(*cfg) + BAR),
        lead_shape(LeadType::Trill, r@, *cfg),
        final(rng).seed() == old(rng).seed(),
        (r@, final(rng).requests()) == (
            trill_events(plan_of(*cfg), pcs@, old(rng).seed(), old(rng).requests(), cfg.chords@.len()).0,
            trill_events(plan_of(*cfg), pcs@, old(rng).seed(), old(rng).requests(), cfg.chords@.len()).1,
        ),
{
    let ghost seed = rng.seed();
    let ghost rq0 = rng.requests();
    let vel = 110u8;
    let scale_mel = notes_between(pcs, 60, 84);
    let bpc = cfg.bars_per_chord as u32;
    let mut events: Vec<NoteEvent> = Vec::new();
    let ghost end = piece_ticks(*cfg) + BAR;
    let mut prev_pitch: Option<u8> = None;
    let n = cfg.chords.len();
    proof {
        lemma_next_chord(0, bpc as int);
    }
    let mut ci: usize = 0;
    while ci < n
        invariant
            ready(*cfg, pcs@),
            n == cfg.chords.len(),
            bpc == cfg.bars_per_chord,
            ci <= n,
            end == piece_ticks(*cfg) + BAR,
            notes_end_by(events@, end),
            scale_mel.len() <= 256,
            vel == 110,
            all_vel(events@, vel),
            all_dur(events@, T),
            pitches_within(events@, 60, 84),
            within(scale_mel@, 60, 84),
            prev_pitch matches Some(q) ==> 60 <= q <= 84,
            events@.len() == 32 * (ci * bpc),
            rng.seed() == seed,
            scale_mel@ == spec_notes_in_range(pcs@, 60, 84),
            (events@, rng.requests(), prev_pitch) == trill_events(plan_of(*cfg), pcs@, seed, rq0, ci as nat),
        decreases n - ci,
    {
        let cpc = chord_root_pc(cfg.key_root, cfg.chords[ci]);
        let ct = tones_between(pcs, cpc, 60, 84);
        let start = match prev_pitch {
            Some(p) => {
                let d = between(rng, -2, 2);
                step(&scale_mel, p, d)
            },
            None => if ct.len() > 0 { ct[below(rng, ct.len())] } else { 72 },
        };
        let ghost rq1 = rng.requests();
        let ghost prev0 = prev_pitch;
        let ghost ev0 = events@;
        let mut bar: u32 = 0;
        while bar < bpc
            invariant
                ready(*cfg, pcs@),
                bpc == cfg.bars_per_chord,
                ci < cfg.chords.len(),
                bar <= bpc,
                end == piece_ticks(*cfg) + BAR,
                notes_end_by(events@, end),
                scale_mel.len() <= 256,
                vel == 110,
                all_vel(events@, vel),
                all_dur(events@, T),
                pitches_within(events@, 60, 84),
                within(scale_mel@, 60, 84),
                60 <= start <= 84,
                prev_pitch matches Some(q) ==> 60 <= q <= 84,
                events@.len() == 32 * (ci * bpc + bar),
                rng.seed() == seed,
                (events@, rng.requests(), prev_pitch) == (
                    ev0 + trill_bars(plan_of(*cfg), scale_mel@, ci as int, start, seed, rq1, prev0, bar as nat).0,
                    trill_bars(plan_of(*cfg), scale_mel@, ci as int, start, seed, rq1, prev0, bar as nat).1,
                    trill_bars(plan_of(*cfg), scale_mel@, ci as int, start, seed, rq1, prev0, bar as nat).2,
                ),
            decreases bpc - bar,
        {
            let t_bar = bar_start(cfg, ci, bar);
            let ghost evb = events@;
            let ghost rqb = rng.requests();
            let p = trill_bar_notes(&mut events, rng, &scale_mel, t_bar, start, Ghost(end));
            proof {
                assert(t_bar == bar_tick(plan_of(*cfg), ci as int, bar as int));
                assert(events@ =~= ev0 + trill_bars(plan_of(*cfg), scale_mel@, ci as int, start, seed, rq1, prev0, (bar + 1) as nat).0);
            }
            prev_pitch = Some(p);
            bar = bar + 1;
        }
        proof {
            lemma_next_chord(ci as int, bpc as int);
        }
        ci = ci + 1;
    }
    events
}

/// A run of `i` thirty-seconds from tick `t`, each a scale step up (the first
/// sixteen) or down from the last, starting from `p`; with the pitch reached.
pub open spec fn trill_run(scale: Seq<u8>, t: int, p: u8, i: nat) -> (Seq<NoteEvent>, u8)
    decreases i,
{
    if i == 0 {
        (Seq::empty(), p)
    } else {
        let (e, q) = trill_run(scale, t, p, (i - 1) as nat);
        let q2 = spec_step_in_scale(scale, q, if i - 1 < 16 { 1i8 } else { -1i8 });
        (e.push(note(t + (i - 1) * 12, q2, 110, T)), q2)
    }
}

/// `i` thirty-seconds from tick `t` alternating between `p` and `p2`.
pub open spec fn trill_alternate(t: int, p: u8, p2: u8, i: nat) -> Seq<NoteEvent>
    decreases i,
{
    if i == 0 {
        Seq::empty()
    } else {
        trill_alternate(t, p, p2, (i - 1) as nat).push(
            note(t + (i - 1) * 12, if (i - 1) % 2 == 0 { p } else { p2 }, 110, T),
        )
    }
}

/// `j` thirty-seconds from `base`, each a scale step up from the last.
pub open spec fn trill_climb(scale: Seq<u8>, base: int, p: u8, j: nat) -> (Seq<NoteEvent>, u8)
    decreases j,
{
    if j == 0 {
        (Seq::empty(), p)
    } else {
        let (e, q) = trill_climb(scale, base, p, (j - 1) as nat);
        let q2 = spec_step_in_scale(scale, q, 1);
        (e.push(note(base + (j - 1) * 12, q2, 110, T)), q2)
    }
}

/// The first `g` run-and-turn groups of a bar at `t`, the pitch reached and the
/// requests after their coin flips.
pub open spec fn trill_groups(scale: Seq<u8>, t: int, p: u8, seed: u64, rq: Reqs, g: nat) -> (Seq<NoteEvent>, u8, Reqs)
    decreases g,
{
    if g == 0 {
        (Seq::empty(), p, rq)
    } else {
        let (e, q, rq1) = trill_groups(scale, t, p, seed, rq, (g - 1) as nat);
        let base = t + (g - 1) * 48;
        let (run, q2) = trill_climb(scale, base, q, 3);
        let tp = spec_step_in_scale(scale, q2, if chance_answer(seed, rq1, 1, 2) { -1i8 } else { 0i8 });
        ((e + run).push(note(base + 36, tp, 110, T)), q2, chance_req(rq1, 1, 2))
    }
}

/// One trill bar from `start`: the notes, the pitch it ends on and the requests
/// after its draws.
pub open spec fn trill_bar(scale: Seq<u8>, t: int, start: u8, seed: u64, rq: Reqs) -> (Seq<NoteEvent>, u8, Reqs) {
    let kind = below_u8_answer(seed, rq, 3);
    let rq1 = below_u8_req(rq, 3);
    if kind == 0 {
        let (e, q) = trill_run(scale, t, start, 32);
        (e, q, rq1)
    } else if kind == 1 {
        let p2 = spec_step_in_scale(scale, start, 1);
        let q = spec_step_in_scale(scale, start, between_answer(seed, rq1, 1, 3) as i8);
        (trill_alternate(t, start, p2, 32), q, between_req(rq1, 1, 3))
    } else {
        trill_groups(scale, t, start, seed, rq1, 8)
    }
}

/// The first `k` bars of chord `ci` of the trill lead, each from `start`; the
/// requests after them and the pitch the last one ended on.
pub open spec fn trill_bars(pl: Plan, scale: Seq<u8>, ci: int, start: u8, seed: u64, rq: Reqs, prev: Option<u8>, k: nat) -> (
    Seq<NoteEvent>,
    Reqs,
    Option<u8>,
)
    decreases k,
{
    if k == 0 {
        (Seq::empty(), rq, prev)
    } else {
        let (e, rq1, pv) = trill_bars(pl, scale, ci, start, seed, rq, prev, (k - 1) as nat);
        let (b, q, rq2) = trill_bar(scale, bar_tick(pl, ci, k - 1), start, seed, rq1);
        (e + b, rq2, Some(q))
    }
}

/// The first `n` chords of the trill lead, the requests after them and the
/// last pitch.
pub open spec fn trill_events(pl: Plan, pcs: Seq<u8>, seed: u64, rq: Reqs, n: nat) -> (Seq<NoteEvent>, Reqs, Option<u8>)
    decreases n,
{
    if n == 0 {
        (Seq::empty(), rq, None)
    } else {
        let (e, rq1, prev) = trill_events(pl, pcs, seed, rq, (n - 1) as nat);
        let scale = spec_notes_in_range(pcs, 60, 84);
        let ct = spec_notes_in_range(crate::midi_gen::triad_pcs(pcs, chord_pc(pl, n - 1)), 60, 84);
        let (start, rq2) = match prev {
            Some(p) => (spec_step_in_scale(scale, p, between_answer(seed, rq1, -2, 2) as i8), between_req(rq1, -2, 2)),
            None => if ct.len() > 0 {
                (ct[below_answer(seed, rq1, ct.len() as int)], below_req(rq1, ct.len() as int))
            } else {
                (72u8, rq1)
            },
        };
        let (b, rq3, pv) = trill_bars(pl, scale, n - 1, start, seed, rq2, prev, pl.bpc);
        (e + b, rq3, pv)
    }
}

// ----- SlowMelody ------------------------------------------------

/// The five rhythm templates of the slow melody: four lengths in quarters.
pub open spec fn rhythm_table(k: int) -> Seq<u32> {
    if k == 0 {
        seq![2u32, 2, 2, 2]
    } else if k == 1 {
        seq![1u32, 1, 3, 3]
    } else if k == 2 {
        seq![3u32, 1, 1, 3]
    } else if k == 3 {
        seq![4u32, 2, 1, 1]
    } else {
        seq![1u32, 3, 1, 3]
    }
}

fn rhythm_template(k: usize) -> (r: [u32; 4])
    requires
        k < 5,
    ensures
        r@ == rhythm_table(k as int),
        forall|i: int| 0 <= i < 4 ==> 1 <= #[trigger] r@[i] <= 4,
{
    if k == 0 {
        [2, 2, 2, 2]
    } else if k == 1 {
        [1, 1, 3, 3]
    } else if k == 2 {
        [3, 1, 1, 3]
    } else if k == 3 {
        [4, 2, 1, 1]
    } else {
        [1, 3, 1, 3]
    }
}

/// The scale steps of the slow melody for a draw below ten: half the time one
/// step along `dir`, three times in ten a leap of two, once back, once held.
pub open spec fn slow_step(pick: int, dir: i8) -> i8 {
    if pick <= 4 {
        dir
    } else if pick <= 7 {
        if dir == 1 { 2i8 } else { -2i8 }
    } else if pick == 8 {
        (-dir) as i8
    } else {
        0i8
    }
}

/// The notes of a slow-melody bar at `t` from the `k`-th length of `tmpl` on,
/// `off` ticks into the bar, the next note at `p`: each length that still fits
/// in the bar is a note, followed by a step and the chance of a chromatic
/// neighbour. With the pitch reached and the requests after the draws.
pub open spec fn slow_bar(
    sc: Seq<u8>,
    pcs: Seq<u8>,
    chrom: u8,
    tmpl: Seq<u32>,
    dir: i8,
    t: int,
    p: u8,
    seed: u64,
    rq: Reqs,
    k: nat,
    off: int,
) -> (Seq<NoteEvent>, u8, Reqs)
    decreases 4 - k,
{
    if k >= 4 || off + tmpl[k as int] * 96 > 384 {
        (Seq::empty(), p, rq)
    } else {
        let dur = (tmpl[k as int] * 96) as u32;
        let p1 = spec_step_in_scale(sc, p, slow_step(below_u8_answer(seed, rq, 10), dir));
        let (p2, rq2) = chromatic(p1, pcs, chrom, seed, below_u8_req(rq, 10));
        let (rest, pe, rqe) = slow_bar(sc, pcs, chrom, tmpl, dir, t, p2, seed, rq2, k + 1, off + dur);
        (seq![note(t + off, p, 100, dur)] + rest, pe, rqe)
    }
}

/// Appends one slow-melody bar from `p_in` at `t_bar` and hands back the pitch
/// reached.
fn slow_bar_notes(
    events: &mut Vec<NoteEvent>,
    rng: &mut Draws,
    scale_mel: &Vec<u8>,
    pcs: &Vec<u8>,
    chrom: u8,
    tmpl: &[u32; 4],
    dir: i8,
    t_bar: u32,
    p_in: u8,
    Ghost(end): Ghost<int>,
) -> (p: u8)
    requires
        notes_end_by(old(events)@, end),
        end < 0x1000_0000,
        t_bar + BAR <= end - BAR,
        chrom <= 100,
        scale_mel.len() <= 256,
        scale_mel.len() > 0,
        within(scale_mel@, 60, 81),
        dir == 1 || dir == -1,
        forall|i: int| 0 <= i < 4 ==> 1 <= #[trigger] tmpl@[i] <= 4,
        59 <= p_in <= 82,
        all_vel(old(events)@, 100),
        pitches_within(old(events)@, 59, 82),
    ensures
        notes_end_by(final(events)@, end),
        all_vel(final(events)@, 100),
        pitches_within(final(events)@, 59, 82),
        old(events)@.len() + 1 <= final(events)@.len() <= old(events)@.len() + 4,
        59 <= p <= 82,
        final(rng).seed() == old(rng).seed(),
        (final(events)@, p, final(rng).requests()) == (
            old(events)@ + slow_bar(scale_mel@, pcs@, chrom, tmpl@, dir, t_bar as int, p_in, old(rng).seed(), old(rng).requests(), 0, 0).0,
            slow_bar(scale_mel@, pcs@, chrom, tmpl@, dir, t_bar as int, p_in, old(rng).seed(), old(rng).requests(), 0, 0).1,
            slow_bar(scale_mel@, pcs@, chrom, tmpl@, dir, t_bar as int, p_in, old(rng).seed(), old(rng).requests(), 0, 0).2,
        ),
{
    let vel = 100u8;
    let ghost seed = old(rng).seed();
    let ghost evb = events@;
    let ghost whole = slow_bar(scale_mel@, pcs@, chrom, tmpl@, dir, t_bar as int, p_in, seed, old(rng).requests(), 0, 0);
    let ghost n0 = events@.len() as int;
    let mut p = p_in;
    let mut tick_offset: u32 = 0;
    let mut k: usize = 0;
    let mut fits = true;
    while k < 4 && fits
        invariant
            k <= 4,
            tick_offset <= BAR,
            chrom <= 100,
            scale_mel.len() <= 256,
            dir == 1 || dir == -1,
            forall|i: int| 0 <= i < 4 ==> 1 <= #[trigger] tmpl@[i] <= 4,
            end < 0x1000_0000,
            t_bar + BAR <= end - BAR,
            notes_end_by(events@, end),
            vel == 100,
            all_vel(events@, vel),
            pitches_within(events@, 59, 82),
            within(scale_mel@, 60, 81),
            scale_mel.len() > 0,
            59 <= p <= 82,
            events@.len() == n0 + k,
            k == 0 ==> tick_offset == 0 && fits,
            !fits ==> k < 4 && tick_offset + tmpl@[k as int] * 96 > 384,
            rng.seed() == seed,
            events@ + slow_bar(scale_mel@, pcs@, chrom, tmpl@, dir, t_bar as int, p, seed, rng.requests(), k as nat, tick_offset as int).0
                == evb + whole.0,
            slow_bar(scale_mel@, pcs@, chrom, tmpl@, dir, t_bar as int, p, seed, rng.requests(), k as nat, tick_offset as int).1 == whole.1,
            slow_bar(scale_mel@, pcs@, chrom, tmpl@, dir, t_bar as int, p, seed, rng.requests(), k as nat, tick_offset as int).2 == whole.2,
        decreases 4 - k + (if fits { 1int } else { 0int }),
    {
        let dur = tmpl[k] * Q;
        if tick_offset + dur > BAR {
            fits = false;
        } else {
            let ghost rqk = rng.requests();
            let ghost pk = p;
            let ghost evk = events@;
            push_note(events, t_bar + tick_offset, p, vel, dur, Ghost(end));
            let pick = below_u8(rng, 10);
            let st: i8 = if pick <= 4 {
                dir
            } else if pick <= 7 {
                if dir == 1 { 2 } else { -2 }
            } else if pick == 8 {
                -dir
            } else {
                0
            };
            assert(st == slow_step(below_u8_answer(seed, rqk, 10), dir));
            p = step(scale_mel, p, st);
            if chrom > 0 && chance(rng, chrom as u32, 100) {
                p = chromatic_neighbor(p, pcs, rng);
            }
            proof {
                let nx = slow_bar(scale_mel@, pcs@, chrom, tmpl@, dir, t_bar as int, p, seed, rng.requests(), (k + 1) as nat, (tick_offset + dur) as int);
                assert(slow_bar(scale_mel@, pcs@, chrom, tmpl@, dir, t_bar as int, pk, seed, rqk, k as nat, tick_offset as int) == (
                    seq![note(t_bar + tick_offset, pk, 100, dur)] + nx.0, nx.1, nx.2));
                assert(events@ + nx.0 =~= evk + (seq![note(t_bar + tick_offset, pk, 100, dur)] + nx.0));
            }
            tick_offset = tick_offset + dur;
            k = k + 1;
        }
    }
    assert(events@ + Seq::<NoteEvent>::empty() =~= events@);
    p
}

/// The first `b` bars of chord `ci` of the slow melody: the first from `start`,
/// each of the others from the pitch the bar before it reached. With the
/// requests after them and the last pitch reached.
pub open spec fn slow_bars(
    pl: Plan,
    sc: Seq<u8>,
    pcs: Seq<u8>,
    ci: int,
    start: u8,
    tmpl: Seq<u32>,
    dir: i8,
    seed: u64,
    rq: Reqs,
    prev: Option<u8>,
    b: nat,
) -> (Seq<NoteEvent>, Reqs, Option<u8>)
    decreases b,
{
    if b == 0 {
        (Seq::empty(), rq, prev)
    } else {
        let (e, rq1, pv) = slow_bars(pl, sc, pcs, ci, start, tmpl, dir, seed, rq, prev, (b - 1) as nat);
        let p = if b - 1 == 0 {
            start
        } else {
            match pv {
                Some(q) => q,
                None => start,
            }
        };
        let (be, pe, rq2) = slow_bar(sc, pcs, pl.chromaticism, tmpl, dir, bar_tick(pl, ci, b - 1), p, seed, rq1, 0, 0);
        (e + be, rq2, Some(pe))
    }
}

/// The first `n` chords of the slow melody, the requests after them and the
/// last pitch: each chord starts a step from the chord tone nearest the last
/// pitch (a random chord tone for the first), on a random rhythm template,
/// rising through the first half of the progression and falling through the
/// second.
pub open spec fn slow_events(pl: Plan, pcs: Seq<u8>, seed: u64, rq: Reqs, n: nat) -> (Seq<NoteEvent>, Reqs, Option<u8>)
    decreases n,
{
    if n == 0 {
        (Seq::empty(), rq, None)
    } else {
        let (e, rq1, prev) = slow_events(pl, pcs, seed, rq, (n - 1) as nat);
        let ci = n - 1;
        let sc = spec_notes_in_range(pcs, 60, 81);
        let ct = spec_notes_in_range(crate::midi_gen::triad_pcs(pcs, chord_pc(pl, ci)), 60, 81);
        let (start, rq2) = match prev {
            Some(p) => (
                spec_step_in_scale(sc, spec_nearest_in_set(p, if ct.len() == 0 { sc } else { ct }), between_answer(seed, rq1, -1, 1) as i8),
                between_req(rq1, -1, 1),
            ),
            None => if ct.len() > 0 {
                (ct[below_answer(seed, rq1, ct.len() as int)], below_req(rq1, ct.len() as int))
            } else {
                (69u8, rq1)
            },
        };
        let tmpl = rhythm_table(below_answer(seed, rq2, 5));
        let dir: i8 = if ci < pl.chords.len() / 2 { 1i8 } else { -1i8 };
        let (b, rq4, pv) = slow_bars(pl, sc, pcs, ci, start, tmpl, dir, seed, below_req(rq2, 5), prev, pl.bpc);
        (e + b, rq4, pv)
    }
}

/// A slow, mostly stepwise line of quarter to whole notes, rising through the
/// first half of the progression and falling through the second.
fn gen_slow_melody(cfg: &MidiGenConfig, pcs: &Vec<u8>, rng: &mut Draws) -> (r: Vec<NoteEvent>)
    requires
        ready(*cfg, pcs@),
        cfg.chromaticism <= 100,
    ensures
        notes_end_by(r@, piece_ticks(*cfg) + BAR),
        lead_shape(LeadType::SlowMelody, r@, *cfg),
        final(rng).seed() == old(rng).seed(),
        (r@, final(rng).requests()) == (
            slow_events(plan_of(*cfg), pcs@, old(rng).seed(), old(rng).requests(), cfg.chords@.len()).0,
            slow_events(plan_of(*cfg), pcs@, old(rng).seed(), old(rng).requests(), cfg.chords@.len()).1,
        ),
{
    let ghost seed = rng.seed();
    let ghost rq0 = rng.requests();
    let vel = 100u8;
    let scale_mel = notes_between(pcs, 60, 81);
    let bpc = cfg.bars_per_chord as u32;
    let mut events: Vec<NoteEvent> = Vec::new();
    let ghost end = piece_ticks(*cfg) + BAR;
    let mut prev: Option<u8> = None;
    let n = cfg.chords.len();
    proof {
        lemma_next_chord(0, bpc as int);
    }
    proof {
        lemma_scale_nonempty(pcs@, 60, 81);
    }
    let mut ci: usize = 0;
    while ci < n
        invariant
            ready(*cfg, pcs@),
            n == cfg.chords.len(),
            bpc == cfg.bars_per_chord,
            ci <= n,
            end == piece_ticks(*cfg) + BAR,
            notes_end_by(events@, end),
            cfg.chromaticism <= 100,
            scale_mel.len() <= 256,
            vel == 100,
            all_vel(events@, vel),
            pitches_within(events@, 59, 82),
            within(scale_mel@, 60, 81),
            scale_mel.len() > 0,
            prev matches Some(q) ==> 59 <= q <= 82,
            ci * bpc <= events@.len() <= 4 * (ci * bpc),
            rng.seed() == seed,
            scale_mel@ == spec_notes_in_range(pcs@, 60, 81),
            (events@, rng.requests(), prev) == slow_events(plan_of(*cfg), pcs@, seed, rq0, ci as nat),
        decreases n - ci,
    {
        let cpc = chord_root_pc(cfg.key_root, cfg.chords[ci]);
        let ct = tones_between(pcs, cpc, 60, 81);
        let ascending = ci < n / 2;
        let start = match prev {
            Some(p) => {
                let near = nearest(p, if ct.len() == 0 { &scale_mel } else { &ct });
                let d = between(rng, -1, 1);
                step(&scale_mel, near, d)
            },
            None => if ct.len() > 0 { ct[below(rng, ct.len())] } else { 69 },
        };
        let kt = below(rng, 5);
        let tmpl = rhythm_template(kt);
        let dir: i8 = if ascending { 1 } else { -1 };
        let ghost rq1 = rng.requests();
        let ghost prev0 = prev;
        let ghost ev0 = events@;
        let mut bar: u32 = 0;
        while bar < bpc
            invariant
                ready(*cfg, pcs@),
                bpc == cfg.bars_per_chord,
                ci < cfg.chords.len(),
                bar <= bpc,
                end == piece_ticks(*cfg) + BAR,
                notes_end_by(events@, end),
                cfg.chromaticism <= 100,
                scale_mel.len() <= 256,
                dir == 1 || dir == -1,
                forall|i: int| 0 <= i < 4 ==> 1 <= #[trigger] tmpl@[i] <= 4,
                vel == 100,
                all_vel(events@, vel),
                pitches_within(events@, 59, 82),
                within(scale_mel@, 60, 81),
                scale_mel.len() > 0,
                prev matches Some(q) ==> 59 <= q <= 82,
                60 <= start <= 81,
                ci * bpc + bar <= events@.len() <= 4 * (ci * bpc + bar),
                rng.seed() == seed,
                (events@, rng.requests(), prev) == (
                    ev0 + slow_bars(plan_of(*cfg), scale_mel@, pcs@, ci as int, start, tmpl@, dir, seed, rq1, prev0, bar as nat).0,
                    slow_bars(plan_of(*cfg), scale_mel@, pcs@, ci as int, start, tmpl@, dir, seed, rq1, prev0, bar as nat).1,
                    slow_bars(plan_of(*cfg), scale_mel@, pcs@, ci as int, start, tmpl@, dir, seed, rq1, prev0, bar as nat).2,
                ),
            decreases bpc - bar,
        {
            let t_bar = bar_start(cfg, ci, bar);
            let p = if bar == 0 {
                start
            } else {
                match prev {
                    Some(q) => q,
                    None => start,
                }
            };
            let p_end = slow_bar_notes(&mut events, rng, &scale_mel, pcs, cfg.chromaticism, &tmpl, dir, t_bar, p, Ghost(end));
            proof {
                assert(t_bar == bar_tick(plan_of(*cfg), ci as int, bar as int));
                assert(events@ =~= ev0 + slow_bars(plan_of(*cfg), scale_mel@, pcs@, ci as int, start, tmpl@, dir, seed, rq1, prev0, (bar + 1) as nat).0);
            }
            prev = Some(p_end);
            bar = bar + 1;
        }
        proof {
            lemma_next_chord(ci as int, bpc as int);
        }
        ci = ci + 1;
    }
    events
}

// ----- ChordPluck ------------------------------------------------

/// A thick chord (seven to twelve notes over four octaves) on every sixteenth.
fn gen_chord_pluck(cfg: &MidiGenConfig, pcs: &Vec<u8>, rng: &mut Draws) -> (r: Vec<NoteEvent>)
    requires
        ready(*cfg, pcs@),
    ensures
        notes_end_by(r@, piece_ticks(*cfg) + BAR),
        lead_shape(LeadType::ChordPluck, r@, *cfg),
        final(rng).seed() == old(rng).seed(),
        (r@, final(rng).requests()) == pluck_events(plan_of(*cfg), pcs@, old(rng).seed(), old(rng).requests(), cfg.chords@.len()),
{
    let ghost seed = rng.seed();
    let ghost rq0 = rng.requests();
    let vel = 108u8;
    let bpc = cfg.bars_per_chord as u32;
    let mut events: Vec<NoteEvent> = Vec::new();
    let ghost end = piece_ticks(*cfg) + BAR;
    let n = cfg.chords.len();
    proof {
        lemma_next_chord(0, bpc as int);
    }
    let mut ci: usize = 0;
    while ci < n
        invariant
            ready(*cfg, pcs@),
            n == cfg.chords.len(),
            bpc == cfg.bars_per_chord,
            ci <= n,
            end == piece_ticks(*cfg) + BAR,
            notes_end_by(events@, end),
            vel == 108,
            all_vel(events@, vel),
            pitches_within(events@, 36, 79),
            all_dur(events@, S),
            events@.len() >= 32 * (ci * bpc),
            rng.seed() == seed,
            (events@, rng.requests()) == pluck_events(plan_of(*cfg), pcs@, seed, rq0, ci as nat),
        decreases n - ci,
    {
        let cpc = chord_root_pc(cfg.key_root, cfg.chords[ci]);
        let root2 = cpc + 36;
        let root3 = cpc + 48;
        let ct_lo = tones_between(pcs, cpc, 36, 55);
        let ct_mid = tones_between(pcs, cpc, 48, 67);
        let ct_hi = tones_between(pcs, cpc, 60, 79);
        let mut voicing: Vec<u8> = Vec::new();
        voicing.push(root2);
        voicing.push(root3);
        assert(voicing@ =~= seq![root2, root3]);
        assert(within(voicing@, 36, 79));
        assert(within(ct_lo@, 36, 79));
        assert(within(ct_mid@, 36, 79));
        assert(within(ct_hi@, 36, 79));
        add_all_new(&mut voicing, &ct_lo, usize::MAX);
        add_all_new(&mut voicing, &ct_mid, usize::MAX);
        add_all_new(&mut voicing, &ct_hi, usize::MAX);
        let scale = notes_between(pcs, 36, 79);
        let fifth = step(&scale, root3, 4);
        assert(within(voicing@, 36, 79));
        add_new(&mut voicing, fifth, usize::MAX);
        let ghost v2 = voicing@;
        let ghost rqc = rng.requests();
        let mut extra: u32 = 0;
        while extra < 2
            invariant
                voicing@.len() >= 2,
                within(scale@, 36, 79),
                within(voicing@, 36, 79),
                extra <= 2,
                rng.seed() == seed,
                (voicing@, rng.requests()) == pluck_extras(v2, scale@, seed, rqc, extra as nat),
            decreases 2 - extra,
        {
            if chance(rng, 30, 100) && scale.len() > 0 {
                let c = scale[below(rng, scale.len())];
                assert(within(voicing@, 36, 79));
                add_new(&mut voicing, c, usize::MAX);
            }
            extra = extra + 1;
        }
        assert(within(voicing@, 36, 79));
        let voicing = sort_notes(&voicing);
        assert((voicing@, rng.requests()) == pluck_voicing(plan_of(*cfg), pcs@, ci as int, seed, rqc));
        let ghost ev0 = events@;
        let mut bar: u32 = 0;
        while bar < bpc
            invariant
                ready(*cfg, pcs@),
                bpc == cfg.bars_per_chord,
                ci < cfg.chords.len(),
                bar <= bpc,
                end == piece_ticks(*cfg) + BAR,
                notes_end_by(events@, end),
                vel == 108,
                all_vel(events@, vel),
                pitches_within(events@, 36, 79),
                all_dur(events@, S),
                events@.len() >= 32 * (ci * bpc + bar),
                voicing@.len() >= 2,
                within(voicing@, 36, 79),
                rng.seed() == seed,
                ev0 == pluck_events(plan_of(*cfg), pcs@, seed, rq0, ci as nat).0,
                pluck_events(plan_of(*cfg), pcs@, seed, rq0, (ci + 1) as nat).0 == ev0 + pluck_bars(
                    plan_of(*cfg),
                    voicing@,
                    ci as int,
                    bpc as nat,
                ),
                rng.requests() == pluck_events(plan_of(*cfg), pcs@, seed, rq0, (ci + 1) as nat).1,
                events@ == ev0 + pluck_bars(plan_of(*cfg), voicing@, ci as int, bar as nat),
            decreases bpc - bar,
        {
            let t = bar_start(cfg, ci, bar);
            let ghost n0 = events@.len() as int;
            let ghost evb = events@;
            let mut i: u32 = 0;
            while i < 16
                invariant
                    i <= 16,
                    end < 0x1000_0000,
                    t + BAR <= end - BAR,
                    notes_end_by(events@, end),
                    vel == 108,
                    all_vel(events@, vel),
                    pitches_within(events@, 36, 79),
                    all_dur(events@, S),
                    voicing@.len() >= 2,
                    within(voicing@, 36, 79),
                    events@.len() >= n0 + 2 * i,
                    events@ == evb + pluck_steps(voicing@, t as int, i as nat),
                decreases 16 - i,
            {
                push_chord(&mut events, &voicing, t + i * S, vel, S, Ghost(end));
                assert(chord_at(voicing@, (t + i * S) as int, vel, S) =~= voicing@.map_values(
                    |p: u8| NoteEvent { tick: (t + i * S) as u32, pitch: p, vel, dur: S },
                ));
                assert(events@ =~= evb + pluck_steps(voicing@, t as int, (i + 1) as nat));
                i = i + 1;
            }
            assert(t == bar_tick(plan_of(*cfg), ci as int, bar as int));
            assert(events@ =~= ev0 + pluck_bars(plan_of(*cfg), voicing@, ci as int, (bar + 1) as nat));
            bar = bar + 1;
        }
        proof {
            lemma_next_chord(ci as int, bpc as int);
        }
        ci = ci + 1;
    }
    events
}

/// Up to two drawn colour notes added to a pluck voicing.
pub open spec fn pluck_extras(v: Seq<u8>, scale: Seq<u8>, seed: u64, rq: Reqs, x: nat) -> (Seq<u8>, Reqs)
    decreases x,
{
    if x == 0 {
        (v, rq)
    } else {
        let (w, rq1) = pluck_extras(v, scale, seed, rq, (x - 1) as nat);
        let rq2 = chance_req(rq1, 30, 100);
        if chance_answer(seed, rq1, 30, 100) && scale.len() > 0 {
            let c = scale[below_answer(seed, rq2, scale.len() as int)];
            (with_new(w, c, usize::MAX as int), below_req(rq2, scale.len() as int))
        } else {
            (w, rq2)
        }
    }
}

/// The voicing of chord `ci` of the pluck lead, sorted, and the requests after.
pub open spec fn pluck_voicing(pl: Plan, pcs: Seq<u8>, ci: int, seed: u64, rq: Reqs) -> (Seq<u8>, Reqs) {
    let cpc = chord_pc(pl, ci);
    let root3 = (cpc + 48) as u8;
    let tri = crate::midi_gen::triad_pcs(pcs, cpc);
    let cap = usize::MAX as int;
    let v0 = seq![(cpc + 36) as u8, root3];
    let v1 = with_all_new(
        with_all_new(with_all_new(v0, spec_notes_in_range(tri, 36, 55), cap), spec_notes_in_range(tri, 48, 67), cap),
        spec_notes_in_range(tri, 60, 79),
        cap,
    );
    let scale = spec_notes_in_range(pcs, 36, 79);
    let v2 = with_new(v1, spec_step_in_scale(scale, root3, 4), cap);
    let (v3, rq1) = pluck_extras(v2, scale, seed, rq, 2);
    (insertion_sorted(v3), rq1)
}

/// The first `i` sixteenth-note chords of a bar at `t`.
pub open spec fn pluck_steps(v: Seq<u8>, t: int, i: nat) -> Seq<NoteEvent>
    decreases i,
{
    if i == 0 {
        Seq::empty()
    } else {
        pluck_steps(v, t, (i - 1) as nat) + chord_at(v, t + (i - 1) * 24, 108, S)
    }
}

/// The first `k` bars of chord `ci` of the pluck lead.
pub open spec fn pluck_bars(pl: Plan, v: Seq<u8>, ci: int, k: nat) -> Seq<NoteEvent>
    decreases k,
{
    if k == 0 {
        Seq::empty()
    } else {
        pluck_bars(pl, v, ci, (k - 1) as nat) + pluck_steps(v, bar_tick(pl, ci, k - 1), 16)
    }
}

/// The first `n` chords of the pluck lead.
pub open spec fn pluck_events(pl: Plan, pcs: Seq<u8>, seed: u64, rq: Reqs, n: nat) -> (Seq<NoteEvent>, Reqs)
    decreases n,
{
    if n == 0 {
        (Seq::empty(), rq)
    } else {
        let (e, rq1) = pluck_events(pl, pcs, seed, rq, (n - 1) as nat);
        let (v, rq2) = pluck_voicing(pl, pcs, n - 1, seed, rq1);
        (e + pluck_bars(pl, v, n - 1, pl.bpc), rq2)
    }
}

// ----- PianoChord ------------------------------------------------

/// A held bass root under one of four chord figures per bar: two half-note
/// hits, syncopated hits, a whole chord with a melodic fragment, or eighth stabs.
/// Appends one piano bar at `t`: the held bass root and a drawn figure.
fn piano_bar_notes(events: &mut Vec<NoteEvent>, rng: &mut Draws, chord: &Vec<u8>, scale: &Vec<u8>, cpc: u8, t: u32, Ghost(end): Ghost<int>)
    requires
        notes_end_by(old(events)@, end),
        end < 0x1000_0000,
        t + BAR <= end - BAR,
        cpc < 12,
        scale.len() <= 256,
        within(scale@, 55, 84),
        chord@.len() >= 1,
        within(chord@, 36, 84),
        vels_within(old(events)@, 85, 100),
        pitches_within(old(events)@, 36, 84),
    ensures
        notes_end_by(final(events)@, end),
        vels_within(final(events)@, 85, 100),
        pitches_within(final(events)@, 36, 84),
        final(events)@.len() >= old(events)@.len() + 3,
        final(rng).seed() == old(rng).seed(),
        (final(events)@, final(rng).requests()) == (
            old(events)@ + piano_bar(chord@, scale@, cpc, t as int, old(rng).seed(), old(rng).requests()).0,
            piano_bar(chord@, scale@, cpc, t as int, old(rng).seed(), old(rng).requests()).1,
        ),
{
    let vel = 95u8;
    let ghost seed = old(rng).seed();
    let ghost ev_start = events@;
    let ghost n0 = events@.len() as int;
    push_note(events, t, cpc + 36, vel, BAR, Ghost(end));
    let ghost evs = events@;
    let figure = below_u8(rng, 4);
    let ghost rq1 = rng.requests();
    if figure == 0 {
        let mut k: usize = 0;
        while k < chord.len()
            invariant
                k <= chord.len(),
                within(chord@, 36, 84),
                vel == 95,
                end < 0x1000_0000,
                t + BAR <= end - BAR,
                notes_end_by(events@, end),
                vels_within(events@, 85, 100),
                pitches_within(events@, 36, 84),
                events@.len() == n0 + 1 + 2 * k,
                events@ == evs + piano_halves(chord@, t as int, k as nat),
            decreases chord.len() - k,
        {
            push_note(events, t, chord[k], vel, H, Ghost(end));
            push_note(events, t + H, chord[k], vel - 5, H, Ghost(end));
            assert(events@ =~= evs + piano_halves(chord@, t as int, (k + 1) as nat));
            k = k + 1;
        }
    } else if figure == 1 {
        push_chord(events, &chord, t, vel, Q, Ghost(end));
        push_chord(events, &chord, t + Q + E, vel - 8, E, Ghost(end));
        push_chord(events, &chord, t + 2 * Q, vel - 3, Q, Ghost(end));
        push_chord(events, &chord, t + 3 * Q, vel - 5, Q, Ghost(end));
        assert(chord_at(chord@, t as int, 95, Q) =~= chord@.map_values(|p: u8| NoteEvent { tick: t, pitch: p, vel: 95, dur: Q }));
        assert(chord_at(chord@, t + 144, 87, E) =~= chord@.map_values(
            |p: u8| NoteEvent { tick: (t + Q + E) as u32, pitch: p, vel: 87, dur: E },
        ));
        assert(chord_at(chord@, t + 192, 92, Q) =~= chord@.map_values(
            |p: u8| NoteEvent { tick: (t + 2 * Q) as u32, pitch: p, vel: 92, dur: Q },
        ));
        assert(chord_at(chord@, t + 288, 90, Q) =~= chord@.map_values(
            |p: u8| NoteEvent { tick: (t + 3 * Q) as u32, pitch: p, vel: 90, dur: Q },
        ));
    } else if figure == 2 {
        push_chord(events, &chord, t, vel, BAR, Ghost(end));
        assert(chord_at(chord@, t as int, 95, BAR) =~= chord@.map_values(
            |p: u8| NoteEvent { tick: t, pitch: p, vel: 95, dur: BAR },
        ));
        let ghost evf = events@;
        let mut mp: u8 = if chord.len() > 0 { chord[chord.len() - 1] } else { 72 };
        let ghost mp0 = mp;
        let mut beat: u32 = 0;
        while beat < 4
            invariant
                beat <= 4,
                vel == 95,
                scale.len() <= 256,
                within(scale@, 36, 84),
                36 <= mp <= 84,
                end < 0x1000_0000,
                t + BAR <= end - BAR,
                notes_end_by(events@, end),
                vels_within(events@, 85, 100),
                pitches_within(events@, 36, 84),
                events@.len() >= n0 + 2 + beat,
                rng.seed() == seed,
                (events@, mp, rng.requests()) == (
                    evf + piano_fragment(scale@, t as int, mp0, seed, rq1, beat as nat).0,
                    piano_fragment(scale@, t as int, mp0, seed, rq1, beat as nat).1,
                    piano_fragment(scale@, t as int, mp0, seed, rq1, beat as nat).2,
                ),
            decreases 4 - beat,
        {
            let d = between(rng, -2, 2);
            mp = step(&scale, mp, d);
            push_note(events, t + beat * Q, mp, vel + 5, Q, Ghost(end));
            assert(events@ =~= evf + piano_fragment(scale@, t as int, mp0, seed, rq1, (beat + 1) as nat).0);
            beat = beat + 1;
        }
    } else {
        let mut beat: u32 = 0;
        while beat < 8
            invariant
                beat <= 8,
                vel == 95,
                end < 0x1000_0000,
                t + BAR <= end - BAR,
                notes_end_by(events@, end),
                vels_within(events@, 85, 100),
                pitches_within(events@, 36, 84),
                chord@.len() >= 1,
                within(chord@, 36, 84),
                events@.len() >= n0 + 1 + beat,
                events@ == evs + piano_stabs(chord@, t as int, beat as nat),
            decreases 8 - beat,
        {
            let v = if beat % 2 == 0 { vel } else { vel - 10 };
            push_chord(events, &chord, t + beat * E, v, E, Ghost(end));
            assert(chord_at(chord@, t + beat * 48, if beat % 2 == 0 { 95u8 } else { 85u8 }, E) =~= chord@.map_values(
                |p: u8| NoteEvent { tick: (t + beat * E) as u32, pitch: p, vel: v, dur: E },
            ));
            assert(events@ =~= evs + piano_stabs(chord@, t as int, (beat + 1) as nat));
            beat = beat + 1;
        }
    }
    assert(events@ =~= ev_start + piano_bar(chord@, scale@, cpc, t as int, seed, old(rng).requests()).0);
}

fn gen_piano_chord(cfg: &MidiGenConfig, pcs: &Vec<u8>, rng: &mut Draws) -> (r: Vec<NoteEvent>)
    requires
        ready(*cfg, pcs@),
    ensures
        notes_end_by(r@, piece_ticks(*cfg) + BAR),
        lead_shape(LeadType::PianoChord, r@, *cfg),
        final(rng).seed() == old(rng).seed(),
        (r@, final(rng).requests()) == piano_events(plan_of(*cfg), pcs@, old(rng).seed(), old(rng).requests(), cfg.chords@.len()),
{
    let ghost seed = rng.seed();
    let ghost rq0 = rng.requests();
    let vel = 95u8;
    let bpc = cfg.bars_per_chord as u32;
    let mut events: Vec<NoteEvent> = Vec::new();
    let ghost end = piece_ticks(*cfg) + BAR;
    let n = cfg.chords.len();
    proof {
        lemma_next_chord(0, bpc as int);
    }
    let mut ci: usize = 0;
    while ci < n
        invariant
            ready(*cfg, pcs@),
            n == cfg.chords.len(),
            bpc == cfg.bars_per_chord,
            ci <= n,
            vel == 95,
            end == piece_ticks(*cfg) + BAR,
            notes_end_by(events@, end),
            vels_within(events@, 85, 100),
            pitches_within(events@, 36, 84),
            events@.len() >= 3 * (ci * bpc),
            rng.seed() == seed,
            (events@, rng.requests()) == piano_events(plan_of(*cfg), pcs@, seed, rq0, ci as nat),
        decreases n - ci,
    {
        let cpc = chord_root_pc(cfg.key_root, cfg.chords[ci]);
        let root3 = cpc + 48;
        let ct = tones_between(pcs, cpc, 48, 79);
        let scale = notes_between(pcs, 55, 84);
        let mut chord: Vec<u8> = Vec::new();
        chord.push(root3);
        assert(chord@ =~= seq![root3]);
        assert(within(chord@, 36, 84));
        assert(within(ct@, 36, 84));
        add_all_new(&mut chord, &ct, 6);
        assert(within(chord@, 36, 84));
        assert(within(ct@, 36, 84));
        let chord = sort_notes(&chord);
        assert(chord@ == piano_chord(plan_of(*cfg), pcs@, ci as int));
        let ghost ev0 = events@;
        let ghost rqc = rng.requests();
        let mut bar: u32 = 0;
        while bar < bpc
            invariant
                ready(*cfg, pcs@),
                bpc == cfg.bars_per_chord,
                ci < cfg.chords.len(),
                bar <= bpc,
                end == piece_ticks(*cfg) + BAR,
                notes_end_by(events@, end),
                cpc < 12,
                vel == 95,
                scale.len() <= 256,
                within(scale@, 55, 84),
                vels_within(events@, 85, 100),
                pitches_within(events@, 36, 84),
                events@.len() >= 3 * (ci * bpc + bar),
                chord@.len() >= 1,
                within(chord@, 36, 84),
                rng.seed() == seed,
                chord@ == piano_chord(plan_of(*cfg), pcs@, ci as int),
                scale@ == spec_notes_in_range(pcs@, 55, 84),
                cpc == chord_pc(plan_of(*cfg), ci as int),
                (events@, rng.requests()) == (
                    ev0 + piano_bars(plan_of(*cfg), pcs@, ci as int, seed, rqc, bar as nat).0,
                    piano_bars(plan_of(*cfg), pcs@, ci as int, seed, rqc, bar as nat).1,
                ),
            decreases bpc - bar,
        {
            let t = bar_start(cfg, ci, bar);
            let ghost evb = events@;
            piano_bar_notes(&mut events, rng, &chord, &scale, cpc, t, Ghost(end));
            assert(t == bar_tick(plan_of(*cfg), ci as int, bar as int));
            assert(events@ =~= ev0 + piano_bars(plan_of(*cfg), pcs@, ci as int, seed, rqc, (bar + 1) as nat).0);
            bar = bar + 1;
        }
        proof {
            lemma_next_chord(ci as int, bpc as int);
        }
        ci = ci + 1;
    }
    events
}

/// The chord of chord `ci` of the piano lead: its root an octave up and chord
/// tones up to six notes, sorted.
pub open spec fn piano_chord(pl: Plan, pcs: Seq<u8>, ci: int) -> Seq<u8> {
    let cpc = chord_pc(pl, ci);
    insertion_sorted(
        with_all_new(seq![(cpc + 48) as u8], spec_notes_in_range(crate::midi_gen::triad_pcs(pcs, cpc), 48, 79), 6),
    )
}

/// Two half-note hits of the first `k` chord notes at `t`.
pub open spec fn piano_halves(c: Seq<u8>, t: int, k: nat) -> Seq<NoteEvent>
    decreases k,
{
    if k == 0 {
        Seq::empty()
    } else {
        piano_halves(c, t, (k - 1) as nat).push(note(t, c[k - 1], 95, H)).push(note(t + 192, c[k - 1], 90, H))
    }
}

/// The first `b` quarter notes of the melodic fragment from `mp`, the note
/// reached and the requests after the steps drawn.
pub open spec fn piano_fragment(scale: Seq<u8>, t: int, mp: u8, seed: u64, rq: Reqs, b: nat) -> (Seq<NoteEvent>, u8, Reqs)
    decreases b,
{
    if b == 0 {
        (Seq::empty(), mp, rq)
    } else {
        let (e, q, rq1) = piano_fragment(scale, t, mp, seed, rq, (b - 1) as nat);
        let q2 = spec_step_in_scale(scale, q, between_answer(seed, rq1, -2, 2) as i8);
        (e.push(note(t + (b - 1) * 96, q2, 100, Q)), q2, between_req(rq1, -2, 2))
    }
}

/// The first `b` eighth-note stabs of a bar at `t`, accented on the beat.
pub open spec fn piano_stabs(c: Seq<u8>, t: int, b: nat) -> Seq<NoteEvent>
    decreases b,
{
    if b == 0 {
        Seq::empty()
    } else {
        piano_stabs(c, t, (b - 1) as nat) + chord_at(c, t + (b - 1) * 48, if (b - 1) % 2 == 0 { 95u8 } else { 85u8 }, E)
    }
}

/// One piano bar at `t`: the held bass root and one of four drawn figures, and
/// the requests after.
pub open spec fn piano_bar(c: Seq<u8>, scale: Seq<u8>, cpc: u8, t: int, seed: u64, rq: Reqs) -> (Seq<NoteEvent>, Reqs) {
    let bass = seq![note(t, (cpc + 36) as u8, 95, BAR)];
    let figure = below_u8_answer(seed, rq, 4);
    let rq1 = below_u8_req(rq, 4);
    if figure == 0 {
        (bass + piano_halves(c, t, c.len()), rq1)
    } else if figure == 1 {
        (
            bass + chord_at(c, t, 95, Q) + chord_at(c, t + 144, 87, E) + chord_at(c, t + 192, 92, Q) + chord_at(
                c,
                t + 288,
                90,
                Q,
            ),
            rq1,
        )
    } else if figure == 2 {
        let mp = if c.len() > 0 { c[c.len() - 1] } else { 72u8 };
        let (e, _q, rq2) = piano_fragment(scale, t, mp, seed, rq1, 4);
        (bass + chord_at(c, t, 95, BAR) + e, rq2)
    } else {
        (bass + piano_stabs(c, t, 8), rq1)
    }
}

/// The first `k` bars of chord `ci` of the piano lead.
pub open spec fn piano_bars(pl: Plan, pcs: Seq<u8>, ci: int, seed: u64, rq: Reqs, k: nat) -> (Seq<NoteEvent>, Reqs)
    decreases k,
{
    if k == 0 {
        (Seq::empty(), rq)
    } else {
        let (e, rq1) = piano_bars(pl, pcs, ci, seed, rq, (k - 1) as nat);
        let (b, rq2) = piano_bar(
            piano_chord(pl, pcs, ci),
            spec_notes_in_range(pcs, 55, 84),
            chord_pc(pl, ci),
            bar_tick(pl, ci, k - 1),
            seed,
            rq1,
        );
        (e + b, rq2)
    }
}

/// The first `n` chords of the piano lead.
pub open spec fn piano_events(pl: Plan, pcs: Seq<u8>, seed: u64, rq: Reqs, n: nat) -> (Seq<NoteEvent>, Reqs)
    decreases n,
{
    if n == 0 {
        (Seq::empty(), rq)
    } else {
        let (e, rq1) = piano_events(pl, pcs, seed, rq, (n - 1) as nat);
        let (b, rq2) = piano_bars(pl, pcs, n - 1, seed, rq1, pl.bpc);
        (e + b, rq2)
    }
}

// ----- Dispatch and the public entry points ----------------------

/// The lead types whose melody may step off the key with a chance of
/// `chromaticism` in 100 (which must then be at most 100).
pub open spec fn uses_chromaticism(lt: LeadType) -> bool {
    lt == LeadType::TwoLayer || lt == LeadType::Unison || lt == LeadType::ChordArp || lt == LeadType::SlowMelody
}

/// The notes lead type `lt` lays over plan `pl` in the scale `pcs`, drawing
/// from a generator seeded with `seed`.
#[verifier::opaque]
pub open spec fn lead_events(lt: LeadType, pl: Plan, pcs: Seq<u8>, seed: u64) -> Seq<NoteEvent> {
    let n = pl.chords.len();
    match lt {
        LeadType::Shuffle => shuffle_events(pl, pcs, seed, Seq::empty(), n).0,
        LeadType::Bounce => bounce_events(pl, pcs, seed, Seq::empty(), n).0,
        LeadType::Zigzag => zigzag_events(pl, pcs, seed, Seq::empty(), n).0,
        LeadType::SubBass => sub_bass_events(pl, pcs, seed, Seq::empty()).0,
        LeadType::DeepBass => deep_events(pl, pcs, seed, Seq::empty(), n).0,
        LeadType::Trill => trill_events(pl, pcs, seed, Seq::empty(), n).0,
        LeadType::ChordArp => arp_events(pl, pcs, seed, Seq::empty(), n).0,
        LeadType::Cell => cell_events(pl, pcs, seed, Seq::empty(), pl.bpc).0,
        LeadType::GatedStab => stab_events(pl, pcs, seed, Seq::empty(), n).0,
        LeadType::PadChord => pad_events(pl, pcs, seed, Seq::empty()).0,
        LeadType::Progressive => prog_events(pl, pcs, seed, Seq::empty(), n).0,
        LeadType::ChordPluck => pluck_events(pl, pcs, seed, Seq::empty(), n).0,
        LeadType::PianoChord => piano_events(pl, pcs, seed, Seq::empty(), n).0,
        LeadType::SlowMelody => slow_events(pl, pcs, seed, Seq::empty(), n).0,
        LeadType::TwoLayer => two_layer_events(pl, pcs, seed),
        LeadType::Unison => unison_events(pl, pcs, seed),
    }
}

fn dispatch(cfg: &MidiGenConfig, pcs: &Vec<u8>, rng: &mut Draws) -> (r: Vec<NoteEvent>)
    requires
        ready(*cfg, pcs@),
        uses_chromaticism(cfg.lead_type) ==> cfg.chromaticism <= 100,
        old(rng).requests() == Seq::<(u8, u64, u64)>::empty(),
    ensures
        notes_end_by(r@, piece_ticks(*cfg) + BAR),
        lead_shape(cfg.lead_type, r@, *cfg),
        r@ == lead_events(cfg.lead_type, plan_of(*cfg), pcs@, old(rng).seed()),
{
    reveal(lead_events);
    match cfg.lead_type {
        LeadType::TwoLayer => gen_two_layer(cfg, pcs, rng),
        LeadType::Zigzag => gen_zigzag(cfg, pcs, rng),
        LeadType::Bounce => gen_bounce(cfg, pcs, rng),
        LeadType::Cell => gen_cell(cfg, pcs, rng),
        LeadType::Shuffle => gen_shuffle(cfg, pcs, rng),
        LeadType::ChordArp => gen_chord_arp(cfg, pcs, rng),
        LeadType::GatedStab => gen_gated_stab(cfg, pcs, rng),
        LeadType::PadChord => gen_pad_chord(cfg, pcs, rng),
        LeadType::DeepBass => gen_deep_bass(cfg, pcs, rng),
        LeadType::SubBass => gen_sub_bass(cfg, pcs, rng),
        LeadType::Progressive => gen_progressive(cfg, pcs, rng),
        LeadType::Trill => gen_trill(cfg, pcs, rng),
        LeadType::SlowMelody => gen_slow_melody(cfg, pcs, rng),
        LeadType::ChordPluck => gen_chord_pluck(cfg, pcs, rng),
        LeadType::PianoChord => gen_piano_chord(cfg, pcs, rng),
        LeadType::Unison => gen_unison(cfg, pcs, rng),
    }
}

/// What `validate` answers for the configuration `resolve_config` makes of
/// `config` (whose progression is then resolved into chord offsets).
pub open spec fn spec_generate_check(config: MidiGenConfig) -> Result<(), Seq<char>> {
    if config.key_root > 11 {
        Err("key_root must be 0–11"@)
    } else if spec_config_chords(config).len() == 0 {
        Err("chords or progression must not be empty"@)
    } else if config.bpm == 0 || config.bpm > 300 {
        Err("bpm must be 1–300"@)
    } else if config.bars_per_chord == 0 {
        Err("bars_per_chord must be >= 1"@)
    } else {
        Ok(())
    }
}

/// Ticks of the generated piece plus one bar of ring-out.
pub open spec fn generated_span(config: MidiGenConfig) -> int {
    spec_config_chords(config).len() * config.bars_per_chord * BAR + BAR
}

/// The configuration can be generated without overflow: `length_bars` plus a
/// chord's bars fits a `u32`, and for a valid configuration the piece (plus a
/// bar) stays below 2^28 ticks, the reach of a MIDI delta time, and the melody's
/// chromaticism is a chance in 100.
pub open spec fn generation_fits(config: MidiGenConfig) -> bool {
    &&& length_fits(config)
    &&& spec_generate_check(config) is Ok ==> {
        &&& generated_span(config) < 0x1000_0000
        &&& uses_chromaticism(config.lead_type) ==> config.chromaticism <= 100
    }
}

/// Tells whether `config` meets `generation_fits`, so that a caller can test it
/// before `generate`, `generate_batch` or `generate_events`.
pub fn fits_generation(config: &MidiGenConfig) -> (r: bool)
    ensures
        r == generation_fits(*config),
{
    let bpc: u64 = if config.bars_per_chord == 0 { 1 } else { config.bars_per_chord as u64 };
    if let Some(total) = config.length_bars {
        if total as u64 + bpc > 0xFFFF_FFFFu64 {
            return false;
        }
    }
    let cfg = resolve_config(config);
    if config.key_root > 11 || cfg.chords.len() == 0 || config.bpm == 0 || config.bpm > 300
        || config.bars_per_chord == 0 {
        return true;
    }
    if cfg.chords.len() >= 0x1000_0000 {
        proof {
            let len = spec_config_chords(*config).len();
            let per = config.bars_per_chord as int;
            assert(len * per * BAR >= len) by (nonlinear_arith)
                requires
                    per >= 1,
                    len >= 0,
            ;
        }
        return false;
    }
    let n: u64 = cfg.chords.len() as u64;
    let per: u64 = config.bars_per_chord as u64;
    assert(n * per * 384 <= 0x1000_0000 * 255 * 384) by (nonlinear_arith)
        requires
            n < 0x1000_0000,
            per <= 255,
    ;
    let span: u64 = n * per * (BAR as u64) + BAR as u64;
    if span >= 0x1000_0000 {
        return false;
    }
    let chromatic: bool = match config.lead_type {
        LeadType::TwoLayer | LeadType::Unison | LeadType::ChordArp | LeadType::SlowMelody => true,
        _ => false,
    };
    !(chromatic && config.chromaticism > 100)
}

pub(crate) proof fn lemma_encode_len(s: Seq<char>)
    ensures
        encode_utf8(s).len() <= 4 * s.len(),
    decreases s.len(),
{
    if s.len() > 0 {
        lemma_encode_len(s.drop_first());
    }
}

proof fn lemma_track_name_short(config: MidiGenConfig, i: nat, n: nat)
    requires
        i < 0x1_0000_0000_0000_0000,
    ensures
        encode_utf8(spec_track_name(config, i, n)).len() < 0x1000_0000,
{
    reveal_strlit("C");
    reveal_strlit("C#");
    reveal_strlit("D");
    reveal_strlit("D#");
    reveal_strlit("E");
    reveal_strlit("F");
    reveal_strlit("F#");
    reveal_strlit("G");
    reveal_strlit("G#");
    reveal_strlit("A");
    reveal_strlit("A#");
    reveal_strlit("B");
    reveal_strlit("m");
    reveal_strlit("");
    reveal_strlit(" ");
    reveal_strlit("TwoLayer");
    reveal_strlit("Zigzag");
    reveal_strlit("Bounce");
    reveal_strlit("Cell");
    reveal_strlit("Shuffle");
    reveal_strlit("ChordArp");
    reveal_strlit("GatedStab");
    reveal_strlit("PadChord");
    reveal_strlit("DeepBass");
    reveal_strlit("SubBass");
    reveal_strlit("Progressive");
    reveal_strlit("Trill");
    reveal_strlit("SlowMelody");
    reveal_strlit("ChordPluck");
    reveal_strlit("PianoChord");
    reveal_strlit("Unison");
    assert(note_display_name(config.key_root as int % 12).len() <= 2);
    assert(scale_suffix(config.minor).len() <= 1);
    assert(lead_type_name(config.lead_type).len() <= 11);
    assert(pow10(20) == 100000000000000000000) by {
        reveal_with_fuel(pow10, 21);
    }
    lemma_decimal_len_le(i + 1, 20);
    assert(decimal_padded(i + 1, 2).len() <= 20);
    lemma_encode_len(spec_track_name(config, i, n));
}

/// The embedded name of a variation fits a meta event: the configuration's
/// own name by `name_fits`, the built one because it is short.
proof fn lemma_embedded_name_short(config: MidiGenConfig, i: nat, n: nat)
    requires
        i < 0x1_0000_0000_0000_0000,
        name_fits(config),
    ensures
        encode_utf8(spec_embedded_name(config, i, n)).len() < 0x1000_0000,
{
    lemma_track_name_short(config, i, n);
}

/// Note-on and note-off entries of bounded notes have bounded ticks.
proof fn lemma_entries_bounded(events: Seq<NoteEvent>, end: int)
    requires
        notes_end_by(events, end),
        end < 0x1000_0000,
    ensures
        forall|k: int| 0 <= k < entries_of(events).len() ==> (#[trigger] entries_of(events)[k]).0 <= end,
    decreases events.len(),
{
    if events.len() > 0 {
        let pre = events.drop_last();
        assert(notes_end_by(pre, end)) by {
            assert forall|i: int| 0 <= i < pre.len() implies #[trigger] pre[i].tick + pre[i].dur <= end && pre[i].dur > 0 by {
                assert(pre[i] == events[i]);
            }
        }
        lemma_entries_bounded(pre, end);
        let e = events.last();
        assert(e == events[events.len() - 1]);
        let a = entries_of(pre);
        let full = entries_of(events);
        assert(full == a + seq![(e.tick, 0u8, e.pitch, e.vel), (off_tick(e) as u32, 1u8, e.pitch, 0u8)]);
        assert forall|k: int| 0 <= k < full.len() implies (#[trigger] full[k]).0 <= end by {
            if k < a.len() {
                assert(full[k] == a[k]);
            }
        }
    }
}

/// Sorting keeps a bound on the entries' ticks.
proof fn lemma_sort_bounded(s: Seq<OnOff>, end: int)
    requires
        forall|k: int| 0 <= k < s.len() ==> (#[trigger] s[k]).0 <= end,
    ensures
        forall|k: int| 0 <= k < sort_entries(s).len() ==> (#[trigger] sort_entries(s)[k]).0 <= end,
    decreases s.len(),
{
    if s.len() > 0 {
        let pre = s.drop_last();
        assert forall|k: int| 0 <= k < pre.len() implies (#[trigger] pre[k]).0 <= end by {
            assert(pre[k] == s[k]);
        }
        lemma_sort_bounded(pre, end);
        let t = sort_entries(pre);
        let x = s.last();
        assert(x == s[s.len() - 1]);
        crate::midi_gen::lemma_sort_len(pre);
        crate::midi_gen::lemma_insert_pos_range(t, x, t.len() as int);
        let p = insert_pos(t, x, t.len() as int);
        let r = t.insert(p, x);
        assert(sort_entries(s) == insert_entry(t, x));
        assert forall|k: int| 0 <= k < r.len() implies (#[trigger] r[k]).0 <= end by {
            if k < p {
                assert(r[k] == t[k]);
            } else if k == p {
                assert(r[k] == x);
            } else {
                assert(r[k] == t[k - 1]);
            }
        }
    }
}

/// Notes that end below 2^28 ticks can be written: every delta time fits.
proof fn lemma_bounded_notes_writable(events: Seq<NoteEvent>, end: int)
    requires
        notes_end_by(events, end),
        end < 0x1000_0000,
    ensures
        events_fit(events),
        deltas_fit(sort_entries(entries_of(events))),
{
    assert forall|i: int| 0 <= i < events.len() implies off_tick(#[trigger] events[i]) <= u32::MAX by {
        assert(events[i].tick + events[i].dur <= end);
    }
    lemma_entries_bounded(events, end);
    lemma_sort_bounded(entries_of(events), end);
    let es = sort_entries(entries_of(events));
    assert forall|k: int| 0 <= k < es.len() implies #[trigger] entry_delta(es, k) < 0x1000_0000 by {
        assert(es[k].0 <= end);
    }
}

/// The resolved configuration generated from.
pub open spec fn resolved_from(r: MidiGenConfig, config: MidiGenConfig) -> bool {
    &&& r.chords@ == spec_config_chords(config)
    &&& r.progression@.len() == 0
    &&& r.key_root == config.key_root
    &&& r.minor == config.minor
    &&& r.lead_type == config.lead_type
    &&& r.bpm == config.bpm
    &&& r.bars_per_chord == config.bars_per_chord
    &&& r.chromaticism == config.chromaticism
    &&& r.seed == config.seed
    &&& r.variations == config.variations
}

/// `file` is variation `i` of `n` generated from `config`, whatever the random
/// draws were: the file `build_midi_file` makes, under the variation's embedded
/// name, of notes that all end within the piece plus one bar and that have the
/// velocities, count and lengths of the configuration's lead type.
pub open spec fn generated_file(file: Seq<u8>, config: MidiGenConfig, i: nat, n: nat) -> bool {
    exists|events: Seq<NoteEvent>|
        #[trigger] notes_end_by(events, generated_span(config)) && config_shape(events, config) && file
            == spec_build_midi_file(spec_embedded_name(config, i, n), config, events)
}

/// The file variation `i` of `n` of `config` is when its generator is seeded
/// with `seed`: the lead type's notes over the resolved progression
/// (`lead_events`), written under the variation's embedded name.
pub open spec fn seeded_file(config: MidiGenConfig, i: nat, n: nat, seed: u64) -> Seq<u8> {
    spec_build_midi_file(
        spec_embedded_name(config, i, n),
        config,
        lead_events(config.lead_type, resolved_plan(config), spec_scale_pcs(config.key_root, config.minor), seed),
    )
}

/// `file` is the file `seeded_file` gives for `seed`.
pub open spec fn from_seed(file: Seq<u8>, config: MidiGenConfig, i: nat, n: nat, seed: u64) -> bool {
    file == seeded_file(config, i, n, seed)
}

/// The configuration's own track name, if any, fits the length field of a MIDI
/// meta event (its UTF-8 bytes below 2^28).
pub open spec fn name_fits(config: MidiGenConfig) -> bool {
    config.name matches Some(s) ==> encode_utf8(s@).len() < 0x1000_0000
}

/// Tells whether `config` meets `name_fits`, so that a caller can test it before
/// `generate` or `generate_batch`.
pub fn fits_name(config: &MidiGenConfig) -> (r: bool)
    ensures
        r == name_fits(*config),
{
    match &config.name {
        Some(s) => s.as_str().as_bytes().len() < 0x1000_0000,
        None => true,
    }
}

/// Resolves and validates a configuration, then makes its scale.
fn prepare(config: &MidiGenConfig) -> (r: Result<(MidiGenConfig, Vec<u8>), String>)
    requires
        generation_fits(*config),
    ensures
        match r {
            Ok((cfg, pcs)) => spec_generate_check(*config) is Ok && resolved_from(cfg, *config) && ready(cfg, pcs@)
                && pcs@ == spec_scale_pcs(config.key_root, config.minor)
                && (uses_chromaticism(cfg.lead_type) ==> cfg.chromaticism <= 100),
            Err(e) => spec_generate_check(*config) == Err::<(), Seq<char>>(e@),
        },
{
    let cfg = resolve_config(config);
    match validate(&cfg) {
        Err(e) => return Err(e),
        Ok(()) => {},
    }
    let pcs = build_scale_pcs(cfg.key_root, cfg.minor);
    proof {
        assert forall|i: int| 0 <= i < 7 implies #[trigger] pcs@[i] < 12 by {
            assert(pcs@[i] == spec_scale_pcs(cfg.key_root, cfg.minor)[i]);
        }
    }
    Ok((cfg, pcs))
}

/// Generates one MIDI file from `config`: the progression resolved, the lead
/// pattern generated with a generator seeded by `config.seed`, and the notes
/// written as a format-0 file whose track is named `config.name`, or like
/// "Am TwoLayer" when there is none. The file is exactly the one `build_midi_file`
/// makes of the notes the lead type draws from a generator seeded with
/// `config.seed` (`seeded_file`); those notes all end within the piece plus one
/// bar and have the lead type's velocities, count and lengths (`config_shape`).
pub fn generate(config: &MidiGenConfig) -> (r: Result<Vec<u8>, String>)
    requires
        generation_fits(*config),
        spec_generate_check(*config) is Ok ==> name_fits(*config),
    ensures
        match r {
            Ok(bytes) => spec_generate_check(*config) is Ok && generated_file(bytes@, *config, 0, 1) && from_seed(
                bytes@,
                *config,
                0,
                1,
                config.seed,
            ),
            Err(e) => spec_generate_check(*config) == Err::<(), Seq<char>>(e@),
        },
{
    let (cfg, pcs) = match prepare(config) {
        Ok(x) => x,
        Err(e) => return Err(e),
    };
    let mut rng = seeded(cfg.seed);
    let events = dispatch(&cfg, &pcs, &mut rng);
    let name = embedded_name(config, 0, 1);
    proof {
        lemma_embedded_name_short(*config, 0, 1);
        lemma_bounded_notes_writable(events@, piece_ticks(cfg) + BAR);
    }
    let bytes = build_midi_file(name.as_str(), &cfg, events.as_slice());
    proof {
        assert(spec_build_midi_file(name@, cfg, events@) == spec_build_midi_file(name@, *config, events@));
        assert(notes_end_by(events@, generated_span(*config)));
        assert(config_shape(events@, *config));
        assert(plan_of(cfg) == resolved_plan(*config));
    }
    Ok(bytes)
}

/// The seed of variation `k`: `seed + k`, wrapping.
pub open spec fn variation_seed(seed: u64, k: int) -> u64 {
    ((seed + k) % 0x1_0000_0000_0000_0000) as u64
}

/// The number of variations a batch makes: `variations`, at least one.
pub open spec fn batch_size(config: MidiGenConfig) -> nat {
    match config.variations {
        Some(v) => if v == 0 { 1 } else { v as nat },
        None => 1,
    }
}

/// Generates `variations` files (at least one), variation `i` with a generator
/// seeded by `seed + i` (wrapping) and a track name numbered `i + 1` when there
/// is more than one.
#[verifier::spinoff_prover]
pub fn generate_batch(config: &MidiGenConfig) -> (r: Result<Vec<Vec<u8>>, String>)
    requires
        generation_fits(*config),
        spec_generate_check(*config) is Ok ==> name_fits(*config),
    ensures
        match r {
            Ok(files) => spec_generate_check(*config) is Ok && files@.len() == batch_size(*config) && forall|k: int|
                0 <= k < files@.len() ==> generated_file((#[trigger] files@[k])@, *config, k as nat, batch_size(*config))
                    && from_seed(files@[k]@, *config, k as nat, batch_size(*config), variation_seed(config.seed, k)),
            Err(e) => spec_generate_check(*config) == Err::<(), Seq<char>>(e@),
        },
{
    let (cfg, pcs) = match prepare(config) {
        Ok(x) => x,
        Err(e) => return Err(e),
    };
    let n: u64 = match cfg.variations {
        Some(v) => if v == 0 { 1 } else { v as u64 },
        None => 1,
    };
    let mut out: Vec<Vec<u8>> = Vec::new();
    let mut i: u64 = 0;
    while i < n
        invariant
            spec_generate_check(*config) is Ok,
            resolved_from(cfg, *config),
            ready(cfg, pcs@),
            uses_chromaticism(cfg.lead_type) ==> cfg.chromaticism <= 100,
            name_fits(*config),
            n == batch_size(*config),
            n <= 65535,
            i <= n,
            out@.len() == i,
            forall|k: int|
                0 <= k < out@.len() ==> generated_file((#[trigger] out@[k])@, *config, k as nat, batch_size(*config))
                    && from_seed(out@[k]@, *config, k as nat, batch_size(*config), variation_seed(config.seed, k)),
            pcs@ == spec_scale_pcs(config.key_root, config.minor),
        decreases n - i,
    {
        let mut rng = seeded(cfg.seed.wrapping_add(i));
        let events = dispatch(&cfg, &pcs, &mut rng);
        let name = embedded_name(config, i, n);
        proof {
            lemma_embedded_name_short(*config, i as nat, n as nat);
            lemma_bounded_notes_writable(events@, piece_ticks(cfg) + BAR);
        }
        let bytes = build_midi_file(name.as_str(), &cfg, events.as_slice());
        proof {
            assert(spec_build_midi_file(name@, cfg, events@) == spec_build_midi_file(name@, *config, events@));
            assert(notes_end_by(events@, generated_span(*config)));
            assert(config_shape(events@, *config));
            assert(generated_file(bytes@, *config, i as nat, n as nat));
            assert(plan_of(cfg) == resolved_plan(*config));
            assert(from_seed(bytes@, *config, i as nat, n as nat, variation_seed(config.seed, i as int)));
        }
        let ghost before = out@;
        out.push(bytes);
        proof {
            assert forall|k: int|
                0 <= k < out@.len() implies generated_file((#[trigger] out@[k])@, *config, k as nat, batch_size(*config))
                    && from_seed(out@[k]@, *config, k as nat, batch_size(*config), variation_seed(config.seed, k)) by {
                if k == i {
                    assert(out@[k] == bytes);
                } else {
                    assert(out@[k] == before[k]);
                }
            }
        }
        i = i + 1;
    }
    Ok(out)
}

/// The note events of the lead pattern, without the file around them.
pub fn generate_events(config: &MidiGenConfig) -> (r: Result<Vec<NoteEvent>, String>)
    requires
        generation_fits(*config),
    ensures
        match r {
            Ok(events) => spec_generate_check(*config) is Ok && notes_end_by(events@, generated_span(*config))
                && config_shape(events@, *config) && events@ == lead_events(
                config.lead_type,
                resolved_plan(*config),
                spec_scale_pcs(config.key_root, config.minor),
                config.seed,
            ),
            Err(e) => spec_generate_check(*config) == Err::<(), Seq<char>>(e@),
        },
{
    let (cfg, pcs) = match prepare(config) {
        Ok(x) => x,
        Err(e) => return Err(e),
    };
    let mut rng = seeded(cfg.seed);
    let events = dispatch(&cfg, &pcs, &mut rng);
    assert(plan_of(cfg) == resolved_plan(*config));
    Ok(events)
}

/// One configuration gives one file: `generate` seeds its generator with the
/// configuration's seed, and every draw is a function of that seed and the
/// draws before it, so any two files it returns for the same configuration are
/// the same bytes.
pub proof fn law_same_seed_same_file(config: MidiGenConfig, b1: Seq<u8>, b2: Seq<u8>)
    requires
        from_seed(b1, config, 0, 1, config.seed),
        from_seed(b2, config, 0, 1, config.seed),
    ensures
        b1 == b2,
{
}

/// A batch of one file is the file `generate` makes: its only variation is
/// seeded with `seed + 0` and named as `generate` names it.
pub proof fn law_single_batch_is_generate(config: MidiGenConfig, f: Seq<u8>, g: Seq<u8>)
    requires
        batch_size(config) == 1,
        from_seed(f, config, 0, batch_size(config), variation_seed(config.seed, 0)),
        from_seed(g, config, 0, 1, config.seed),
    ensures
        f == g,
{
    assert(variation_seed(config.seed, 0) == config.seed);
}

/// A generated file reads back as the file generated: format 0 with one track at
/// 96 ticks per quarter note, the configured tempo and key, 4/4 time and the
/// variation's track name, with the notes that were generated (a file up to
/// 4 GiB, the size a track length field can state).
pub proof fn law_generated_files_read_back(bytes: Seq<u8>, config: MidiGenConfig, i: nat, n: nat)
    requires
        generated_file(bytes, config, i, n),
        generation_fits(config),
        name_fits(config),
        spec_generate_check(config) is Ok,
        i < 0x1_0000_0000_0000_0000,
        bytes.len() <= u32::MAX,
    ensures
        exists|events: Seq<NoteEvent>|
            #[trigger] notes_end_by(events, generated_span(config)) && spec_parse_midi(bytes) == Ok::<
                Option<MidiSummarySpec>,
                (),
            >(Some(expected_summary(spec_embedded_name(config, i, n), config, events))),
{
    let events = choose|events: Seq<NoteEvent>|
        #[trigger] notes_end_by(events, generated_span(config)) && config_shape(events, config) && bytes
            == spec_build_midi_file(spec_embedded_name(config, i, n), config, events);
    let name = spec_embedded_name(config, i, n);
    lemma_embedded_name_short(config, i, n);
    lemma_bounded_notes_writable(events, generated_span(config));
    assert(crate::midi_gen::track_body(encode_utf8(name), config, events).len() <= bytes.len());
    law_generated_file_reads_back(name, config, events);
}

} // verus!
