//! Kits: several lead layers generated together for one key and tempo, each kit
//! with its own seed. The files are written by the caller; what each kit holds,
//! how it is named and what every layer's bytes are is decided here.
use vstd::prelude::*;
use crate::generators::{fits_generation, from_seed, generate, generated_file, generation_fits, name_fits, seeded_file, spec_generate_check};
use crate::midi_gen::{lead_type_name, names_of, spec_config_chords, spec_resolve_chords, note_display_name, note_display_str, scale_suffix, LeadType, MidiGenConfig};
use crate::text::{decimal, owned, push_decimal, push_str};

verus! {

/// Settings of a kit batch.
#[derive(Clone, Debug)]
pub struct KitGenConfig {
    /// Key root pitch class: 0=C … 11=B.
    pub key_root: u8,
    /// `true` = minor, `false` = major.
    pub minor: bool,
    /// Chord progression as chord names.
    pub progression: Vec<String>,
    /// Chord progression as semitone offsets, used when `progression` is empty.
    pub chords: Vec<i8>,
    pub bpm: u16,
    pub bars_per_chord: u8,
    pub length_bars: Option<u32>,
    /// Chromaticism: 0 = strictly in key, 100 = most out-of-key notes.
    pub chromaticism: u8,
    /// Base seed; kit `i` uses `seed + i`.
    pub seed: u64,
    /// Number of kits.
    pub num_kits: u16,
    /// Layers to include; empty means all of the default layers.
    pub layers: Vec<LeadType>,
}

/// One written file of a kit.
#[derive(Debug)]
pub struct KitFileInfo {
    pub path: String,
    pub layer: String,
    pub size: usize,
}

/// One written kit.
#[derive(Debug)]
pub struct KitInfo {
    pub dir: String,
    pub name: String,
    pub files: Vec<KitFileInfo>,
}

/// The rule a kit configuration breaks, if any.
pub open spec fn spec_validate_kit(config: KitGenConfig) -> Result<(), Seq<char>> {
    if config.key_root > 11 {
        Err("key_root must be 0–11"@)
    } else if config.chords@.len() == 0 && config.progression@.len() == 0 {
        Err("chords or progression must not be empty"@)
    } else if config.num_kits == 0 {
        Err("num_kits must be >= 1"@)
    } else {
        Ok(())
    }
}

pub open spec fn unit_result(r: Result<(), String>) -> Result<(), Seq<char>> {
    match r {
        Ok(()) => Ok(()),
        Err(e) => Err(e@),
    }
}

/// Checks a kit configuration: key root 0–11, some chords, at least one kit.
pub fn validate_kit(config: &KitGenConfig) -> (r: Result<(), String>)
    ensures
        unit_result(r) == spec_validate_kit(*config),
{
    if config.key_root > 11 {
        return Err(owned("key_root must be 0–11"));
    }
    if config.chords.len() == 0 && config.progression.len() == 0 {
        return Err(owned("chords or progression must not be empty"));
    }
    if config.num_kits == 0 {
        return Err(owned("num_kits must be >= 1"));
    }
    Ok(())
}

/// The default layers of a kit and their file names, in order.
pub open spec fn default_layer(i: int) -> (LeadType, Seq<char>) {
    if i == 0 {
        (LeadType::TwoLayer, "Lead TwoLayer"@)
    } else if i == 1 {
        (LeadType::ChordArp, "Lead ChordArp"@)
    } else if i == 2 {
        (LeadType::Unison, "Lead Unison"@)
    } else if i == 3 {
        (LeadType::Progressive, "Progressive"@)
    } else if i == 4 {
        (LeadType::ChordPluck, "Chord Pluck"@)
    } else if i == 5 {
        (LeadType::PadChord, "Pad"@)
    } else if i == 6 {
        (LeadType::PianoChord, "Piano"@)
    } else if i == 7 {
        (LeadType::GatedStab, "Chord Stab"@)
    } else if i == 8 {
        (LeadType::SlowMelody, "Melody"@)
    } else if i == 9 {
        (LeadType::Trill, "Trill"@)
    } else if i == 10 {
        (LeadType::DeepBass, "Deep Bass"@)
    } else {
        (LeadType::SubBass, "Sub Bass"@)
    }
}

/// Number of default layers.
pub const DEFAULT_LAYER_COUNT: usize = 12;

fn default_layer_at(i: usize) -> (r: (LeadType, &'static str))
    requires
        i < DEFAULT_LAYER_COUNT,
    ensures
        r.0 == default_layer(i as int).0,
        r.1@ == default_layer(i as int).1,
{
    if i == 0 {
        (LeadType::TwoLayer, "Lead TwoLayer")
    } else if i == 1 {
        (LeadType::ChordArp, "Lead ChordArp")
    } else if i == 2 {
        (LeadType::Unison, "Lead Unison")
    } else if i == 3 {
        (LeadType::Progressive, "Progressive")
    } else if i == 4 {
        (LeadType::ChordPluck, "Chord Pluck")
    } else if i == 5 {
        (LeadType::PadChord, "Pad")
    } else if i == 6 {
        (LeadType::PianoChord, "Piano")
    } else if i == 7 {
        (LeadType::GatedStab, "Chord Stab")
    } else if i == 8 {
        (LeadType::SlowMelody, "Melody")
    } else if i == 9 {
        (LeadType::Trill, "Trill")
    } else if i == 10 {
        (LeadType::DeepBass, "Deep Bass")
    } else {
        (LeadType::SubBass, "Sub Bass")
    }
}

/// The default layers are twelve distinct lead types: every lead type but the
/// four short-cell ones (Zigzag, Bounce, Cell and Shuffle), each exactly once,
/// under twelve distinct file names.
pub proof fn law_default_layers_distinct()
    ensures
        forall|i: int, j: int|
            0 <= i < j < DEFAULT_LAYER_COUNT ==> (#[trigger] default_layer(i)).0 != (#[trigger] default_layer(j)).0,
        forall|lt: LeadType|
            (#[trigger] default_index_of(lt, 0)) is Some <==> !(lt is Zigzag || lt is Bounce || lt is Cell || lt is Shuffle),
        forall|i: int, j: int|
            0 <= i < j < DEFAULT_LAYER_COUNT ==> (#[trigger] default_layer(i)).1 != (#[trigger] default_layer(j)).1,
{
    reveal_with_fuel(default_index_of, 13);
    reveal_strlit("Lead TwoLayer");
    reveal_strlit("Lead ChordArp");
    reveal_strlit("Lead Unison");
    reveal_strlit("Progressive");
    reveal_strlit("Chord Pluck");
    reveal_strlit("Pad");
    reveal_strlit("Piano");
    reveal_strlit("Chord Stab");
    reveal_strlit("Melody");
    reveal_strlit("Trill");
    reveal_strlit("Deep Bass");
    reveal_strlit("Sub Bass");
    assert forall|i: int, j: int| 0 <= i < j < DEFAULT_LAYER_COUNT implies (#[trigger] default_layer(i)).1 != (
    #[trigger] default_layer(j)).1 by {
        let a = default_layer(i).1;
        let b = default_layer(j).1;
        if a.len() == b.len() {
            let k: int = if a[0] != b[0] { 0 } else if a[5] != b[5] { 5 } else { 6 };
            assert(a[k] != b[k]);
        }
    }
}

/// Default layer `i` is the first default layer with its lead type.
proof fn lemma_default_index(i: int)
    requires
        0 <= i < DEFAULT_LAYER_COUNT,
    ensures
        default_index_of(default_layer(i).0, 0) == Some(i),
{
    reveal_with_fuel(default_index_of, 13);
}

/// Choosing the default layers' lead types explicitly gives the default layers:
/// the same lead types with the same file names, in the same order.
pub proof fn law_chosen_defaults_are_defaults(c1: KitGenConfig, c2: KitGenConfig)
    requires
        c1.layers@.len() == 0,
        c2.layers@ == spec_kit_layers(c1).map_values(|l: (LeadType, Seq<char>)| l.0),
    ensures
        spec_kit_layers(c2) == spec_kit_layers(c1),
{
    assert(c2.layers@.len() == DEFAULT_LAYER_COUNT);
    assert forall|i: int| 0 <= i < DEFAULT_LAYER_COUNT implies #[trigger] spec_kit_layers(c2)[i] == spec_kit_layers(c1)[i] by {
        lemma_default_index(i);
        assert(c2.layers@[i] == default_layer(i).0);
    }
    assert(spec_kit_layers(c2) =~= spec_kit_layers(c1));
}

/// The first default layer from `from` on with lead type `lt`.
pub open spec fn default_index_of(lt: LeadType, from: int) -> Option<int>
    decreases DEFAULT_LAYER_COUNT - from,
{
    if from < 0 || from >= DEFAULT_LAYER_COUNT {
        None
    } else if default_layer(from).0 == lt {
        Some(from)
    } else {
        default_index_of(lt, from + 1)
    }
}

/// The file name of a chosen layer: the default layer's name, or the lead
/// type's own name for a type that is no default layer.
pub open spec fn layer_name(lt: LeadType) -> Seq<char> {
    match default_index_of(lt, 0) {
        Some(i) => default_layer(i).1,
        None => lead_type_name(lt),
    }
}

/// Every layer name is short: its UTF-8 bytes fit the length field of a MIDI
/// meta event.
proof fn lemma_layer_name_short(config: KitGenConfig, k: int)
    requires
        0 <= k < spec_kit_layers(config).len(),
    ensures
        vstd::utf8::encode_utf8(spec_kit_layers(config)[k].1).len() < 0x1000_0000,
{
    reveal_strlit("Lead TwoLayer");
    reveal_strlit("Lead ChordArp");
    reveal_strlit("Lead Unison");
    reveal_strlit("Progressive");
    reveal_strlit("Chord Pluck");
    reveal_strlit("Pad");
    reveal_strlit("Piano");
    reveal_strlit("Chord Stab");
    reveal_strlit("Melody");
    reveal_strlit("Trill");
    reveal_strlit("Deep Bass");
    reveal_strlit("Sub Bass");
    reveal_strlit("TwoLayer");
    reveal_strlit("Zigzag");
    reveal_strlit("Bounce");
    reveal_strlit("Cell");
    reveal_strlit("Shuffle");
    reveal_strlit("ChordArp");
    reveal_strlit("GatedStab");
    reveal_strlit("PadChord");
    reveal_strlit("DeepBass");
    reveal_strlit("SubBass");
    reveal_strlit("SlowMelody");
    reveal_strlit("ChordPluck");
    reveal_strlit("PianoChord");
    reveal_strlit("Unison");
    let name = spec_kit_layers(config)[k].1;
    if config.layers@.len() == 0 {
        assert(name == default_layer(k).1);
    } else {
        let lt = config.layers@[k];
        assert(name == layer_name(lt));
        match default_index_of(lt, 0) {
            Some(i) => assert(name == default_layer(i).1),
            None => assert(name == lead_type_name(lt)),
        }
    }
    assert(name.len() <= 16);
    crate::generators::lemma_encode_len(name);
}

/// The layers of a kit with their file names.
pub open spec fn spec_kit_layers(config: KitGenConfig) -> Seq<(LeadType, Seq<char>)> {
    if config.layers@.len() == 0 {
        default_layers(DEFAULT_LAYER_COUNT as nat)
    } else {
        named_layers(config.layers@)
    }
}

/// The first `n` default layers.
pub open spec fn default_layers(n: nat) -> Seq<(LeadType, Seq<char>)> {
    Seq::new(n, |i: int| default_layer(i))
}

/// Chosen lead types with their file names.
pub open spec fn named_layers(s: Seq<LeadType>) -> Seq<(LeadType, Seq<char>)> {
    s.map_values(|lt: LeadType| (lt, layer_name(lt)))
}

pub open spec fn layers_view(v: Vec<(LeadType, &str)>) -> Seq<(LeadType, Seq<char>)> {
    v@.map_values(|x: (LeadType, &str)| (x.0, x.1@))
}

fn name_of_layer(lt: LeadType) -> (r: &'static str)
    ensures
        r@ == layer_name(lt),
{
    let mut i: usize = 0;
    while i < DEFAULT_LAYER_COUNT
        invariant
            i <= DEFAULT_LAYER_COUNT,
            default_index_of(lt, 0) == default_index_of(lt, i as int),
        decreases DEFAULT_LAYER_COUNT - i,
    {
        let e = default_layer_at(i);
        if e.0 == lt {
            return e.1;
        }
        i = i + 1;
    }
    lt.short_name()
}

/// The layers to generate with their file names: all default layers when none
/// are chosen, else the chosen ones in order.
pub fn kit_layers(config: &KitGenConfig) -> (r: Vec<(LeadType, &'static str)>)
    ensures
        layers_view(r) == spec_kit_layers(*config),
{
    let mut out: Vec<(LeadType, &'static str)> = Vec::new();
    if config.layers.len() == 0 {
        let mut i: usize = 0;
        while i < DEFAULT_LAYER_COUNT
            invariant
                i <= DEFAULT_LAYER_COUNT,
                layers_view(out) == default_layers(i as nat),
            decreases DEFAULT_LAYER_COUNT - i,
        {
            let ghost before = out@;
            let e = default_layer_at(i);
            out.push(e);
            proof {
                assert(out@ == before.push(e));
                assert(before.push(e).map_values(|x: (LeadType, &str)| (x.0, x.1@)) =~= before.map_values(|x: (LeadType, &str)| (x.0, x.1@)).push((e.0, e.1@)));
                assert(default_layers((i + 1) as nat) =~= default_layers(i as nat).push(default_layer(i as int)));
            }
            i = i + 1;
        }
    } else {
        let mut i: usize = 0;
        while i < config.layers.len()
            invariant
                i <= config.layers.len(),
                layers_view(out) == named_layers(config.layers@.take(i as int)),
            decreases config.layers.len() - i,
        {
            let lt = config.layers[i];
            let ghost before = out@;
            let e = (lt, name_of_layer(lt));
            out.push(e);
            proof {
                assert(out@ == before.push(e));
                assert(before.push(e).map_values(|x: (LeadType, &str)| (x.0, x.1@)) =~= before.map_values(|x: (LeadType, &str)| (x.0, x.1@)).push((e.0, e.1@)));
                assert(config.layers@.take(i + 1) =~= config.layers@.take(i as int).push(lt));
                assert(named_layers(config.layers@.take(i as int).push(lt)) =~= named_layers(config.layers@.take(i as int)).push((lt, layer_name(lt))));
            }
            i = i + 1;
        }
        assert(config.layers@.take(i as int) =~= config.layers@);
    }
    out
}

/// Key as shown in names: "A", "C#", with "m" for minor.
pub open spec fn key_label(config: KitGenConfig) -> Seq<char> {
    note_display_name(config.key_root as int % 12) + scale_suffix(config.minor)
}

/// The pack folder name: "Trance MIDI Pack Am 140BPM <timestamp>".
pub open spec fn spec_pack_name(config: KitGenConfig, timestamp: Seq<char>) -> Seq<char> {
    "Trance MIDI Pack "@ + key_label(config) + " "@ + decimal(config.bpm as nat) + "BPM "@ + timestamp
}

fn push_key_label(out: &mut String, config: &KitGenConfig)
    ensures
        final(out)@ == old(out)@ + key_label(*config),
{
    push_str(out, note_display_str(config.key_root % 12));
    if config.minor {
        push_str(out, "m");
    } else {
        push_str(out, "");
    }
}

/// Names the pack folder after the key, the tempo and a time stamp.
pub fn pack_name(config: &KitGenConfig, timestamp: &str) -> (r: String)
    ensures
        r@ == spec_pack_name(*config, timestamp@),
{
    let mut out = owned("Trance MIDI Pack ");
    push_key_label(&mut out, config);
    push_str(&mut out, " ");
    push_decimal(&mut out, config.bpm as u64);
    push_str(&mut out, "BPM ");
    push_str(&mut out, timestamp);
    out
}

/// The name of kit `i` (0-based): "Kit 1 (Am) (140 BPM)".
pub open spec fn spec_kit_name(config: KitGenConfig, i: nat) -> Seq<char> {
    "Kit "@ + decimal(i + 1) + " ("@ + key_label(config) + ") ("@ + decimal(config.bpm as nat) + " BPM)"@
}

/// The file name of a layer inside its kit folder: the layer name and `.mid`.
pub fn kit_file_name(layer: &str) -> (r: String)
    ensures
        r@ == layer@ + ".mid"@,
{
    let mut out = owned(layer);
    push_str(&mut out, ".mid");
    out
}

/// Names kit `i` (0-based) after its number, key and tempo.
pub fn kit_name(config: &KitGenConfig, i: u16) -> (r: String)
    ensures
        r@ == spec_kit_name(*config, i as nat),
{
    let mut out = owned("Kit ");
    push_decimal(&mut out, i as u64 + 1);
    push_str(&mut out, " (");
    push_key_label(&mut out, config);
    push_str(&mut out, ") (");
    push_decimal(&mut out, config.bpm as u64);
    push_str(&mut out, " BPM)");
    out
}

/// The seed of kit `i`: `seed + i`, wrapping.
pub open spec fn spec_kit_seed(seed: u64, i: u16) -> u64 {
    ((seed + i) % 0x1_0000_0000_0000_0000) as u64
}

pub fn kit_seed(seed: u64, i: u16) -> (r: u64)
    ensures
        r == spec_kit_seed(seed, i),
{
    seed.wrapping_add(i as u64)
}

/// The generator settings of one layer of a kit.
pub open spec fn layer_settings(m: MidiGenConfig, config: KitGenConfig, lead_type: LeadType, layer: Seq<char>, seed: u64) -> bool {
    &&& m.key_root == config.key_root
    &&& m.minor == config.minor
    &&& m.lead_type == lead_type
    &&& m.chords@ == config.chords@
    &&& names_of(m.progression@) == names_of(config.progression@)
    &&& m.bpm == config.bpm
    &&& m.bars_per_chord == config.bars_per_chord
    &&& m.length_bars == config.length_bars
    &&& m.chromaticism == config.chromaticism
    &&& m.seed == seed
    &&& m.name matches Some(n) && n@ == layer
    &&& m.variations == Some(1u16)
}

fn copy_strings(v: &Vec<String>) -> (r: Vec<String>)
    ensures
        names_of(r@) == names_of(v@),
{
    let mut out: Vec<String> = Vec::new();
    let mut i: usize = 0;
    while i < v.len()
        invariant
            i <= v.len(),
            names_of(out@) == names_of(v@.take(i as int)),
        decreases v.len() - i,
    {
        let ghost before = out@;
        let c = owned(v[i].as_str());
        out.push(c);
        proof {
            assert(out@ == before.push(c));
            assert(v@.take(i + 1) =~= v@.take(i as int).push(v@[i as int]));
            assert(names_of(before.push(c)) =~= names_of(before).push(c@));
            assert(names_of(v@.take(i as int).push(v@[i as int])) =~= names_of(v@.take(i as int)).push(v@[i as int]@));
        }
        i = i + 1;
    }
    assert(v@.take(i as int) =~= v@);
    out
}

fn copy_chords(v: &Vec<i8>) -> (r: Vec<i8>)
    ensures
        r@ == v@,
{
    let mut out: Vec<i8> = Vec::new();
    let mut i: usize = 0;
    while i < v.len()
        invariant
            i <= v.len(),
            out@ == v@.take(i as int),
        decreases v.len() - i,
    {
        out.push(v[i]);
        i = i + 1;
        assert(out@ =~= v@.take(i as int));
    }
    assert(v@.take(i as int) =~= v@);
    out
}

/// The generator settings of one layer: the kit's key, chords, tempo and
/// length, the layer's lead type and name, the kit's seed, one variation.
pub fn layer_config(config: &KitGenConfig, lead_type: LeadType, layer: &str, seed: u64) -> (r: MidiGenConfig)
    ensures
        layer_settings(r, *config, lead_type, layer@, seed),
{
    MidiGenConfig {
        key_root: config.key_root,
        minor: config.minor,
        lead_type,
        chords: copy_chords(&config.chords),
        progression: copy_strings(&config.progression),
        bpm: config.bpm,
        bars_per_chord: config.bars_per_chord,
        length_bars: config.length_bars,
        chromaticism: config.chromaticism,
        seed,
        name: Some(owned(layer)),
        variations: Some(1),
    }
}

/// Every layer of the kit can be generated without overflow.
pub open spec fn kit_fits(config: KitGenConfig) -> bool {
    forall|k: int, m: MidiGenConfig, layer: Seq<char>, seed: u64|
        0 <= k < spec_kit_layers(config).len() && #[trigger] layer_settings(
            m,
            config,
            spec_kit_layers(config)[k].0,
            layer,
            seed,
        ) ==> generation_fits(m)
}

/// Two configurations of one layer (same lead type) differ only in name and
/// seed, which the generation limits do not read.
proof fn lemma_layer_fits_agree(config: KitGenConfig, lt: LeadType, m1: MidiGenConfig, m2: MidiGenConfig)
    requires
        exists|layer: Seq<char>, seed: u64| layer_settings(m1, config, lt, layer, seed),
        exists|layer: Seq<char>, seed: u64| layer_settings(m2, config, lt, layer, seed),
    ensures
        generation_fits(m1) == generation_fits(m2),
{
    assert(m1.progression@.len() == names_of(m1.progression@).len());
    assert(m2.progression@.len() == names_of(m2.progression@).len());
    assert(spec_resolve_chords(m1) == spec_resolve_chords(m2));
    assert(spec_config_chords(m1) == spec_config_chords(m2));
}

/// Tells whether `config` meets `kit_fits`, so that a caller can test it before
/// `generate_kit`. Every layer shares the kit's settings but its lead type, and
/// the melodic lead types ask the most of them.
pub fn fits_kit(config: &KitGenConfig) -> (r: bool)
    ensures
        r == kit_fits(*config),
{
    let layers = kit_layers(config);
    let ghost ls = spec_kit_layers(*config);
    let mut k: usize = 0;
    while k < layers.len()
        invariant
            k <= layers.len(),
            layers_view(layers) == ls,
            ls == spec_kit_layers(*config),
            forall|j: int, m: MidiGenConfig, layer: Seq<char>, seed: u64|
                0 <= j < k && #[trigger] layer_settings(m, *config, ls[j].0, layer, seed) ==> generation_fits(m),
        decreases layers.len() - k,
    {
        let (lead_type, _) = layers[k];
        assert(ls[k as int].0 == lead_type);
        let m = layer_config(config, lead_type, "", 0);
        if !fits_generation(&m) {
            assert(layer_settings(m, *config, ls[k as int].0, ""@, 0));
            return false;
        }
        proof {
            assert forall|j: int, m2: MidiGenConfig, layer: Seq<char>, seed: u64|
                0 <= j < k + 1 && #[trigger] layer_settings(m2, *config, ls[j].0, layer, seed) implies generation_fits(m2) by {
                if j == k {
                    lemma_layer_fits_agree(*config, lead_type, m, m2);
                }
            }
        }
        k = k + 1;
    }
    true
}

/// `name` and `bytes` are layer `k` of a kit with `seed`: the layer's file name,
/// and a file `generate` makes for the layer's settings under that seed.
pub open spec fn kit_layer_file(name: Seq<char>, bytes: Seq<u8>, config: KitGenConfig, k: int, seed: u64) -> bool {
    &&& name == spec_kit_layers(config)[k].1
    &&& exists|m: MidiGenConfig|
        #[trigger] layer_settings(m, config, spec_kit_layers(config)[k].0, name, seed) && generated_file(bytes, m, 0, 1)
            && from_seed(bytes, m, 0, 1, seed)
}

/// Each file of kit `i` is the file `generate` makes of its layer's settings
/// under the kit's seed, `seed + i`: the layer's lead type over the kit's key,
/// progression and lengths, named after the layer.
pub proof fn law_kit_files_follow_kit_seed(name: Seq<char>, bytes: Seq<u8>, config: KitGenConfig, k: int, i: u16)
    requires
        kit_layer_file(name, bytes, config, k, spec_kit_seed(config.seed, i)),
    ensures
        exists|m: MidiGenConfig|
            #[trigger] layer_settings(m, config, spec_kit_layers(config)[k].0, name, spec_kit_seed(config.seed, i))
                && m.seed == spec_kit_seed(config.seed, i) && bytes == seeded_file(m, 0, 1, m.seed),
{
}

/// Two layers of one kit pass or fail the generation check alike: they share
/// every setting it reads.
proof fn lemma_layer_checks_agree(config: KitGenConfig, m1: MidiGenConfig, m2: MidiGenConfig)
    requires
        exists|lt: LeadType, layer: Seq<char>, seed: u64| layer_settings(m1, config, lt, layer, seed),
        exists|lt: LeadType, layer: Seq<char>, seed: u64| layer_settings(m2, config, lt, layer, seed),
    ensures
        spec_generate_check(m1) == spec_generate_check(m2),
{
    assert(m1.progression@.len() == names_of(m1.progression@).len());
    assert(m2.progression@.len() == names_of(m2.progression@).len());
    assert(spec_resolve_chords(m1) == spec_resolve_chords(m2));
    assert(spec_config_chords(m1) == spec_config_chords(m2));
}

/// The MIDI files of kit `i`, one per layer in order, each with its layer name:
/// the file `generate` makes of the layer's settings with the kit's seed,
/// `seed + i` (`kit_layer_file`).
pub fn generate_kit(config: &KitGenConfig, i: u16) -> (r: Result<Vec<(String, Vec<u8>)>, String>)
    requires
        kit_fits(*config),
    ensures
        match r {
            Ok(files) => files@.len() == spec_kit_layers(*config).len() && forall|k: int|
                0 <= k < files@.len() ==> kit_layer_file((#[trigger] files@[k]).0@, files@[k].1@, *config, k, spec_kit_seed(config.seed, i)),
            Err(e) => forall|m: MidiGenConfig, lt: LeadType, layer: Seq<char>, seed: u64|
                #[trigger] layer_settings(m, *config, lt, layer, seed) ==> spec_generate_check(m) == Err::<(), Seq<char>>(e@),
        },
        r is Ok ==> forall|m: MidiGenConfig, lt: LeadType, layer: Seq<char>, seed: u64|
            #[trigger] layer_settings(m, *config, lt, layer, seed) ==> spec_generate_check(m) is Ok,
{
    let layers = kit_layers(config);
    proof {
        if config.layers@.len() > 0 {
            assert(named_layers(config.layers@).len() == config.layers@.len());
        }
        assert(layers@.len() == layers_view(layers).len());
    }
    assert(layers.len() > 0);
    let seed = kit_seed(config.seed, i);
    let mut out: Vec<(String, Vec<u8>)> = Vec::new();
    let mut k: usize = 0;
    while k < layers.len()
        invariant
            kit_fits(*config),
            layers_view(layers) == spec_kit_layers(*config),
            seed == spec_kit_seed(config.seed, i),
            k <= layers.len(),
            out@.len() == k,
            forall|j: int| 0 <= j < out@.len() ==> kit_layer_file((#[trigger] out@[j]).0@, out@[j].1@, *config, j, seed),
            k > 0 ==> forall|m: MidiGenConfig, lt: LeadType, layer: Seq<char>, seed: u64|
                #[trigger] layer_settings(m, *config, lt, layer, seed) ==> spec_generate_check(m) is Ok,
        decreases layers.len() - k,
    {
        let (lead_type, layer) = layers[k];
        let cfg = layer_config(config, lead_type, layer, seed);
        proof {
            assert(layers_view(layers)[k as int] == (layers@[k as int].0, layers@[k as int].1@));
            assert(layer_settings(cfg, *config, spec_kit_layers(*config)[k as int].0, layer@, seed));
            lemma_layer_name_short(*config, k as int);
            assert(name_fits(cfg));
        }
        let bytes = match generate(&cfg) {
            Ok(b) => b,
            Err(e) => {
                proof {
                    assert forall|m: MidiGenConfig, lt: LeadType, l: Seq<char>, s: u64|
                        #[trigger] layer_settings(m, *config, lt, l, s) implies spec_generate_check(m) == Err::<
                        (),
                        Seq<char>,
                    >(e@) by {
                        lemma_layer_checks_agree(*config, cfg, m);
                    }
                }
                return Err(e);
            },
        };
        proof {
            assert forall|m: MidiGenConfig, lt: LeadType, l: Seq<char>, s: u64|
                #[trigger] layer_settings(m, *config, lt, l, s) implies spec_generate_check(m) is Ok by {
                lemma_layer_checks_agree(*config, cfg, m);
            }
        }
        proof {
            assert(layers_view(layers)[k as int] == (layers@[k as int].0, layers@[k as int].1@));
            assert(layer_settings(cfg, *config, spec_kit_layers(*config)[k as int].0, layer@, seed));
            assert(kit_layer_file(layer@, bytes@, *config, k as int, seed));
        }
        let ghost before = out@;
        out.push((owned(layer), bytes));
        proof {
            assert forall|j: int| 0 <= j < out@.len() implies kit_layer_file((#[trigger] out@[j]).0@, out@[j].1@, *config, j, seed) by {
                if j < k {
                    assert(out@[j] == before[j]);
                }
            }
        }
        k = k + 1;
    }
    Ok(out)
}

} // verus!
