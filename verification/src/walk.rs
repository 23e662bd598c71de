//! What the recursive file walkers keep and skip: which directory entries they
//! pass over, which files they collect for each kind of library, the key of a
//! file's extension, the macOS data-volume path prefix they drop, and the short
//! list of directories shown as "being scanned".
use vstd::prelude::*;
use crate::scanner::{is_skip_dir, skip_dir_names, views};
use crate::text::{chars_of, lower_case, owned, push_char, push_str, str_eq, unicode_lower};

verus! {

/// The kinds of files a walker collects.
#[derive(Clone, Copy, PartialEq, Eq, Debug, Structural)]
pub enum WalkKind {
    Midi,
    Pdf,
    Preset,
}

/// The PDF file extension.
pub const PDF_EXTENSION: &'static str = ".pdf";

/// Deepest level below its root that a walker enters.
pub const MAX_WALK_DEPTH: u32 = 30;

/// Whether a walker enters a directory `depth` levels below its root, given
/// whether it has visited that directory before: only down to `MAX_WALK_DEPTH`,
/// and each directory once.
pub fn enters_dir(depth: u32, seen_before: bool) -> (r: bool)
    ensures
        r == (depth <= 30 && !seen_before),
{
    depth <= MAX_WALK_DEPTH && !seen_before
}

/// MIDI file extensions.
pub open spec fn midi_extension_names() -> Seq<Seq<char>> {
    seq![".mid"@, ".midi"@]
}

/// Preset file extensions: VST2 preset and bank, VST3, Audio Unit, Ableton device
/// and rack, Kontakt instrument and snapshot, u-he, MIDI SysEx, Tone2, TAL.
pub open spec fn preset_extension_names() -> Seq<Seq<char>> {
    seq![
        ".fxp"@, ".fxb"@, ".vstpreset"@, ".aupreset"@, ".adv"@, ".adg"@, ".nki"@, ".nksn"@, ".h2p"@, ".syx"@,
        ".tfx"@, ".pjunoxl"@,
    ]
}

/// Directory names the preset walker skips.
pub open spec fn preset_skip_names() -> Seq<Seq<char>> {
    seq!["node_modules"@, ".git"@, ".Trash"@, "$RECYCLE.BIN"@, "System Volume Information"@, ".cache"@, "__pycache__"@]
}

/// Directory names the PDF walker skips.
pub open spec fn pdf_skip_names() -> Seq<Seq<char>> {
    seq![
        "node_modules"@, ".git"@, ".Trash"@, "$RECYCLE.BIN"@, "#recycle"@, "System Volume Information"@, ".cache"@,
        "__pycache__"@,
    ]
}

/// The MIDI file extensions, with their dot.
pub fn midi_extensions() -> (r: Vec<&'static str>)
    ensures
        views(r@) == midi_extension_names(),
{
    let v: Vec<&'static str> = vec![".mid", ".midi"];
    assert(views(v@) =~= midi_extension_names());
    v
}

/// The preset file extensions, with their dot.
pub fn preset_extensions() -> (r: Vec<&'static str>)
    ensures
        views(r@) == preset_extension_names(),
{
    let v: Vec<&'static str> = vec![
        ".fxp",
        ".fxb",
        ".vstpreset",
        ".aupreset",
        ".adv",
        ".adg",
        ".nki",
        ".nksn",
        ".h2p",
        ".syx",
        ".tfx",
        ".pjunoxl",
    ];
    assert(views(v@) =~= preset_extension_names());
    v
}

fn preset_skip_dirs() -> (r: Vec<&'static str>)
    ensures
        views(r@) == preset_skip_names(),
{
    let v: Vec<&'static str> = vec![
        "node_modules",
        ".git",
        ".Trash",
        "$RECYCLE.BIN",
        "System Volume Information",
        ".cache",
        "__pycache__",
    ];
    assert(views(v@) =~= preset_skip_names());
    v
}

fn pdf_skip_dirs() -> (r: Vec<&'static str>)
    ensures
        views(r@) == pdf_skip_names(),
{
    let v: Vec<&'static str> = vec![
        "node_modules",
        ".git",
        ".Trash",
        "$RECYCLE.BIN",
        "#recycle",
        "System Volume Information",
        ".cache",
        "__pycache__",
    ];
    assert(views(v@) =~= pdf_skip_names());
    v
}

/// Whether `name` is one of `list`.
fn listed(list: &Vec<&'static str>, name: &str) -> (r: bool)
    ensures
        r == views(list@).contains(name@),
{
    let mut i: usize = 0;
    while i < list.len()
        invariant
            i <= list.len(),
            forall|k: int| 0 <= k < i ==> views(list@)[k] != name@,
        decreases list.len() - i,
    {
        if str_eq(list[i], name) {
            assert(views(list@)[i as int] == name@);
            return true;
        }
        i = i + 1;
    }
    assert(!views(list@).contains(name@)) by {
        if views(list@).contains(name@) {
            let k = choose|k: int| 0 <= k < views(list@).len() && views(list@)[k] == name@;
            assert(views(list@)[k] != name@);
        }
    }
    false
}

pub open spec fn strings_view(v: Seq<String>) -> Seq<Seq<char>> {
    v.map_values(|s: String| s@)
}

/// Whether `name` is one of `list`.
fn among(list: &Vec<String>, name: &str) -> (r: bool)
    ensures
        r == strings_view(list@).contains(name@),
{
    let mut i: usize = 0;
    while i < list.len()
        invariant
            i <= list.len(),
            forall|k: int| 0 <= k < i ==> strings_view(list@)[k] != name@,
        decreases list.len() - i,
    {
        if str_eq(list[i].as_str(), name) {
            assert(strings_view(list@)[i as int] == name@);
            return true;
        }
        i = i + 1;
    }
    assert(!strings_view(list@).contains(name@)) by {
        if strings_view(list@).contains(name@) {
            let k = choose|k: int| 0 <= k < strings_view(list@).len() && strings_view(list@)[k] == name@;
            assert(strings_view(list@)[k] != name@);
        }
    }
    false
}

pub open spec fn starts_with_char(s: Seq<char>, c: char) -> bool {
    s.len() > 0 && s[0] == c
}

/// A walker of `kind` passes over the directory entry `name`: hidden entries,
/// the kind's junk directories, and names the user excluded (MIDI and PDF); the
/// MIDI walker also passes over `@`-prefixed NAS system folders.
pub open spec fn spec_skips_entry(kind: WalkKind, name: Seq<char>, exclude: Seq<Seq<char>>) -> bool {
    match kind {
        WalkKind::Midi => starts_with_char(name, '.') || starts_with_char(name, '@') || skip_dir_names().contains(name)
            || exclude.contains(name),
        WalkKind::Pdf => starts_with_char(name, '.') || pdf_skip_names().contains(name) || exclude.contains(name),
        WalkKind::Preset => starts_with_char(name, '.') || preset_skip_names().contains(name),
    }
}

/// Whether a walker of `kind` passes over the directory entry `name`.
pub fn skips_entry(kind: WalkKind, name: &str, exclude: &Vec<String>) -> (r: bool)
    ensures
        r == spec_skips_entry(kind, name@, strings_view(exclude@)),
{
    let cs = chars_of(name);
    let hidden = cs.len() > 0 && cs[0] == '.';
    match kind {
        WalkKind::Midi => hidden || (cs.len() > 0 && cs[0] == '@') || is_skip_dir(name) || among(exclude, name),
        WalkKind::Pdf => hidden || listed(&pdf_skip_dirs(), name) || among(exclude, name),
        WalkKind::Preset => hidden || listed(&preset_skip_dirs(), name),
    }
}

/// A walker of `kind` collects files with extension key `ext`.
pub open spec fn spec_collects(kind: WalkKind, ext: Seq<char>) -> bool {
    match kind {
        WalkKind::Midi => midi_extension_names().contains(ext),
        WalkKind::Pdf => ext == ".pdf"@,
        WalkKind::Preset => preset_extension_names().contains(ext),
    }
}

/// Whether a walker of `kind` collects the file at `path`, whose extension key
/// is `ext`: the kind's extension, and a path the user did not exclude.
pub fn keeps_file(kind: WalkKind, ext: &str, path: &str, exclude: &Vec<String>) -> (r: bool)
    ensures
        r == (spec_collects(kind, ext@) && !strings_view(exclude@).contains(path@)),
{
    let wanted = match kind {
        WalkKind::Midi => listed(&midi_extensions(), ext),
        WalkKind::Pdf => str_eq(ext, PDF_EXTENSION),
        WalkKind::Preset => listed(&preset_extensions(), ext),
    };
    wanted && !among(exclude, path)
}

/// Index of the last `c` in `s`, or -1.
pub open spec fn last_index_of(s: Seq<char>, c: char) -> int
    decreases s.len(),
{
    if s.len() == 0 {
        -1
    } else if s.last() == c {
        s.len() - 1
    } else {
        last_index_of(s.drop_last(), c)
    }
}

proof fn lemma_last_index(s: Seq<char>, c: char)
    ensures
        -1 <= last_index_of(s, c) < s.len(),
        last_index_of(s, c) >= 0 ==> s[last_index_of(s, c)] == c,
        forall|k: int| last_index_of(s, c) < k < s.len() ==> s[k] != c,
    decreases s.len(),
{
    if s.len() > 0 && s.last() != c {
        lemma_last_index(s.drop_last(), c);
        assert forall|k: int| last_index_of(s, c) < k < s.len() implies s[k] != c by {
            if k < s.len() - 1 {
                assert(s[k] == s.drop_last()[k]);
            }
        }
    }
}

/// The extension key of a file name: a dot and the part after the last dot,
/// lower-cased, or empty when there is no extension (no dot, only a leading
/// dot, or the name `..`).
pub open spec fn spec_extension_key(name: Seq<char>) -> Seq<char> {
    let i = last_index_of(name, '.');
    if name == ".."@ || i <= 0 {
        Seq::empty()
    } else {
        seq!['.'] + unicode_lower(name.subrange(i + 1, name.len() as int))
    }
}

/// The extension key of a file name, such as ".vst3" for "Serum.VST3".
pub fn extension_key(name: &str) -> (r: String)
    ensures
        r@ == spec_extension_key(name@),
{
    let cs = chars_of(name);
    proof {
        lemma_last_index(name@, '.');
    }
    if str_eq(name, "..") {
        return String::new();
    }
    let mut i: usize = cs.len();
    while i > 0
        invariant
            i <= cs.len(),
            cs@ == name@,
            forall|k: int| i <= k < cs.len() ==> cs@[k] != '.',
        ensures
            i <= cs.len(),
            forall|k: int| i <= k < cs.len() ==> cs@[k] != '.',
            i == 0 || cs@[i - 1] == '.',
        decreases i,
    {
        if cs[i - 1] == '.' {
            break;
        }
        i = i - 1;
    }
    proof {
        if i > 0 {
            assert(cs@[i - 1] == '.');
            assert(last_index_of(name@, '.') == i - 1) by {
                if last_index_of(name@, '.') != i - 1 {
                    assert(name@[last_index_of(name@, '.')] == '.');
                }
            }
        } else {
            assert(last_index_of(name@, '.') == -1) by {
                if last_index_of(name@, '.') >= 0 {
                    assert(name@[last_index_of(name@, '.')] == '.');
                }
            }
        }
    }
    if i <= 1 {
        return String::new();
    }
    let mut tail = String::new();
    let mut k: usize = i;
    while k < cs.len()
        invariant
            i <= k <= cs.len(),
            cs@ == name@,
            tail@ == cs@.subrange(i as int, k as int),
        decreases cs.len() - k,
    {
        push_char(&mut tail, cs[k]);
        proof {
            assert(cs@.subrange(i as int, k + 1) =~= cs@.subrange(i as int, k as int).push(cs@[k as int]));
        }
        k = k + 1;
    }
    let mut out = owned(".");
    let lower = lower_case(tail.as_str());
    push_str(&mut out, lower.as_str());
    proof {
        reveal_strlit(".");
        reveal_strlit("..");
    }
    out
}

/// On macOS a path under the data volume, "/System/Volumes/Data/…", names the
/// same file as the path without that prefix.
pub open spec fn spec_strip_data_volume(path: Seq<char>) -> Seq<char> {
    let prefix = "/System/Volumes/Data/"@;
    if path.len() >= prefix.len() && path.subrange(0, prefix.len() as int) == prefix {
        path.subrange(prefix.len() - 1, path.len() as int)
    } else {
        path
    }
}

/// Drops the macOS data-volume prefix from a path, keeping the slash after it.
pub fn strip_data_volume(path: &str) -> (r: String)
    ensures
        r@ == spec_strip_data_volume(path@),
{
    let cs = chars_of(path);
    let prefix = chars_of("/System/Volumes/Data/");
    proof {
        reveal_strlit("/System/Volumes/Data/");
    }
    if cs.len() < prefix.len() {
        return owned(path);
    }
    let mut i: usize = 0;
    while i < prefix.len()
        invariant
            i <= prefix.len() <= cs.len(),
            cs@ == path@,
            prefix@ == "/System/Volumes/Data/"@,
            forall|k: int| 0 <= k < i ==> cs@[k] == prefix@[k],
        decreases prefix.len() - i,
    {
        if cs[i] != prefix[i] {
            proof {
                assert(path@.subrange(0, prefix@.len() as int)[i as int] != prefix@[i as int]);
            }
            return owned(path);
        }
        i = i + 1;
    }
    assert(path@.subrange(0, prefix@.len() as int) =~= prefix@);
    let mut out = String::new();
    let mut k: usize = prefix.len() - 1;
    while k < cs.len()
        invariant
            prefix.len() - 1 <= k <= cs.len(),
            prefix@.len() == 21,
            cs@ == path@,
            out@ == cs@.subrange(prefix.len() - 1, k as int),
        decreases cs.len() - k,
    {
        push_char(&mut out, cs[k]);
        proof {
            assert(cs@.subrange(prefix.len() - 1, k + 1) =~= cs@.subrange(prefix.len() - 1, k as int).push(cs@[k as int]));
        }
        k = k + 1;
    }
    out
}

/// How many directories a walker of `kind` lists as being scanned.
pub open spec fn spec_active_cap(kind: WalkKind) -> nat {
    match kind {
        WalkKind::Midi => 200,
        _ => 30,
    }
}

/// Records that a walker of `kind` entered `dir`: it is added last and only the
/// newest directories, up to the kind's limit, are kept.
pub fn note_active_dir(kind: WalkKind, dirs: &mut Vec<String>, dir: String)
    ensures
        ({
            let all = old(dirs)@.push(dir);
            let cap = spec_active_cap(kind);
            final(dirs)@ == if all.len() > cap { all.subrange(all.len() - cap, all.len() as int) } else { all }
        }),
{
    let cap: usize = match kind {
        WalkKind::Midi => 200,
        _ => 30,
    };
    let ghost all = old(dirs)@.push(dir);
    dirs.push(dir);
    if dirs.len() > cap {
        let excess = dirs.len() - cap;
        let kept = dirs.split_off(excess);
        *dirs = kept;
    }
}

/// The paths a scan works through: those not excluded, each at its first
/// occurrence, in order.
pub open spec fn kept_paths(ps: Seq<Seq<char>>, exclude: Seq<Seq<char>>) -> Seq<Seq<char>>
    decreases ps.len(),
{
    if ps.len() == 0 {
        Seq::empty()
    } else {
        let prev = kept_paths(ps.drop_last(), exclude);
        let p = ps.last();
        if exclude.contains(p) || ps.drop_last().contains(p) {
            prev
        } else {
            prev.push(p)
        }
    }
}

/// A scan works through exactly the paths it was given that are not excluded.
pub proof fn law_scan_paths_members(ps: Seq<Seq<char>>, exclude: Seq<Seq<char>>, x: Seq<char>)
    ensures
        kept_paths(ps, exclude).contains(x) <==> (ps.contains(x) && !exclude.contains(x)),
    decreases ps.len(),
{
    if ps.len() > 0 {
        law_scan_paths_members(ps.drop_last(), exclude, x);
        let prev = kept_paths(ps.drop_last(), exclude);
        if ps.contains(x) && !exclude.contains(x) {
            let k = choose|k: int| 0 <= k < ps.len() && ps[k] == x;
            if k < ps.len() - 1 {
                assert(ps.drop_last()[k] == x);
            }
        }
        if ps.drop_last().contains(x) {
            let k = choose|k: int| 0 <= k < ps.drop_last().len() && ps.drop_last()[k] == x;
            assert(ps[k] == x);
        }
        if prev.push(ps.last()).contains(x) && !prev.contains(x) {
            let k = choose|k: int| 0 <= k < prev.push(ps.last()).len() && prev.push(ps.last())[k] == x;
            assert(k == prev.len());
        }
        assert(prev.push(ps.last())[prev.len() as int] == ps.last());
        if prev.contains(x) {
            let k = choose|k: int| 0 <= k < prev.len() && prev[k] == x;
            assert(prev.push(ps.last())[k] == x);
        }
    }
}

/// A scan works through each path once.
pub proof fn law_scan_paths_distinct(ps: Seq<Seq<char>>, exclude: Seq<Seq<char>>)
    ensures
        forall|i: int, j: int|
            0 <= i < j < kept_paths(ps, exclude).len() ==> #[trigger] kept_paths(ps, exclude)[i] != #[trigger] kept_paths(
                ps,
                exclude,
            )[j],
    decreases ps.len(),
{
    if ps.len() > 0 {
        law_scan_paths_distinct(ps.drop_last(), exclude);
        let prev = kept_paths(ps.drop_last(), exclude);
        let p = ps.last();
        if !(exclude.contains(p) || ps.drop_last().contains(p)) {
            law_scan_paths_members(ps.drop_last(), exclude, p);
            let now = prev.push(p);
            assert forall|i: int, j: int| 0 <= i < j < now.len() implies #[trigger] now[i] != #[trigger] now[j] by {
                if j == prev.len() as int && now[i] == now[j] {
                    assert(prev[i] == p);
                    assert(prev.contains(p));
                }
            }
        }
    }
}

/// The paths a scan works through: each path of `paths` that is not excluded,
/// at its first occurrence, in order.
pub fn unique_scan_paths(paths: &Vec<String>, exclude: &Vec<String>) -> (r: Vec<String>)
    ensures
        strings_view(r@) == kept_paths(strings_view(paths@), strings_view(exclude@)),
{
    let ghost ps = strings_view(paths@);
    let ghost ex = strings_view(exclude@);
    let mut out: Vec<String> = Vec::new();
    let mut i: usize = 0;
    while i < paths.len()
        invariant
            i <= paths.len(),
            ps == strings_view(paths@),
            ex == strings_view(exclude@),
            strings_view(out@) == kept_paths(ps.take(i as int), ex),
        decreases paths.len() - i,
    {
        let p = paths[i].as_str();
        proof {
            assert(ps.take(i + 1).drop_last() =~= ps.take(i as int));
            assert(ps.take(i + 1).last() == p@);
            law_scan_paths_members(ps.take(i as int), ex, p@);
        }
        if !among(exclude, p) && !among(&out, p) {
            let ghost before = strings_view(out@);
            out.push(paths[i].clone());
            assert(strings_view(out@) =~= before.push(p@));
        }
        i = i + 1;
    }
    assert(ps.take(i as int) =~= ps);
    out
}

} // verus!
