//! Where each scanner looks: the plugin folders of each platform, and the roots
//! of the preset, PDF and MIDI walks. Paths are built from the user's home
//! folder and, on Windows, the Program Files and application-data folders; the
//! caller keeps those that exist.
use vstd::prelude::*;
use crate::open_with::Platform;
use crate::text::{owned, push_char, push_str};
use crate::walk::strings_view;

verus! {

/// The path separator of a platform.
pub open spec fn sep_of(platform: Platform) -> char {
    if platform == Platform::Windows { '\\' } else { '/' }
}

/// `part` (a relative path) under `base`: a separator goes between them unless
/// `base` is empty or already ends with one.
pub open spec fn spec_join(base: Seq<char>, part: Seq<char>, sep: char) -> Seq<char> {
    if base.len() == 0 {
        part
    } else if base.last() == sep {
        base + part
    } else {
        base.push(sep) + part
    }
}

fn join(base: &str, part: &str, sep: char) -> (r: String)
    ensures
        r@ == spec_join(base@, part@, sep),
{
    if base.is_empty() {
        return owned(part);
    }
    let mut out = owned(base);
    let cs = crate::text::chars_of(base);
    if cs[cs.len() - 1] != sep {
        push_char(&mut out, sep);
    }
    push_str(&mut out, part);
    out
}

pub open spec fn windows_program_files(pf: Option<Seq<char>>) -> Seq<char> {
    match pf {
        Some(p) => p,
        None => "C:\\Program Files"@,
    }
}

pub open spec fn windows_program_files_x86(pf: Option<Seq<char>>) -> Seq<char> {
    match pf {
        Some(p) => p,
        None => "C:\\Program Files (x86)"@,
    }
}

/// The plugin folders a platform has, before checking which exist.
pub open spec fn spec_vst_dirs(
    platform: Platform,
    home: Seq<char>,
    program_files: Option<Seq<char>>,
    program_files_x86: Option<Seq<char>>,
) -> Seq<Seq<char>> {
    match platform {
        Platform::MacOs => seq![
            "/Library/Audio/Plug-Ins/VST"@,
            "/Library/Audio/Plug-Ins/VST3"@,
            "/Library/Audio/Plug-Ins/Components"@,
            "/Library/Audio/Plug-Ins/CLAP"@,
            spec_join(home, "Library/Audio/Plug-Ins/VST"@, '/'),
            spec_join(home, "Library/Audio/Plug-Ins/VST3"@, '/'),
            spec_join(home, "Library/Audio/Plug-Ins/Components"@, '/'),
            spec_join(home, "Library/Audio/Plug-Ins/CLAP"@, '/'),
        ],
        Platform::Windows => {
            let pf = windows_program_files(program_files);
            let pf86 = windows_program_files_x86(program_files_x86);
            seq![
                spec_join(spec_join(pf, "Common Files"@, '\\'), "VST3"@, '\\'),
                spec_join(spec_join(pf, "Common Files"@, '\\'), "CLAP"@, '\\'),
                spec_join(pf, "VSTPlugins"@, '\\'),
                spec_join(spec_join(pf, "Steinberg"@, '\\'), "VSTPlugins"@, '\\'),
                spec_join(spec_join(pf86, "Common Files"@, '\\'), "VST3"@, '\\'),
                spec_join(spec_join(pf86, "Common Files"@, '\\'), "CLAP"@, '\\'),
                spec_join(pf86, "VSTPlugins"@, '\\'),
                spec_join(spec_join(pf86, "Steinberg"@, '\\'), "VSTPlugins"@, '\\'),
            ]
        },
        _ => seq![
            "/usr/lib/vst"@,
            "/usr/lib/vst3"@,
            "/usr/lib/clap"@,
            "/usr/local/lib/vst"@,
            "/usr/local/lib/vst3"@,
            "/usr/local/lib/clap"@,
            spec_join(home, ".vst"@, '/'),
            spec_join(home, ".vst3"@, '/'),
            spec_join(home, ".clap"@, '/'),
        ],
    }
}

/// The plugin folders of `platform`: the system and user folders of each
/// format. `home` is the user's home folder (empty when unknown);
/// `program_files` and `program_files_x86` are the Windows folders, with the
/// usual `C:` paths when unset.
pub fn vst_directory_candidates(
    platform: Platform,
    home: &str,
    program_files: Option<&str>,
    program_files_x86: Option<&str>,
) -> (r: Vec<String>)
    ensures
        strings_view(r@) == spec_vst_dirs(
            platform,
            home@,
            crate::text::opt_view(program_files),
            crate::text::opt_view(program_files_x86),
        ),
{
    let mut out: Vec<String> = Vec::new();
    match platform {
        Platform::MacOs => {
            out.push(owned("/Library/Audio/Plug-Ins/VST"));
            out.push(owned("/Library/Audio/Plug-Ins/VST3"));
            out.push(owned("/Library/Audio/Plug-Ins/Components"));
            out.push(owned("/Library/Audio/Plug-Ins/CLAP"));
            out.push(join(home, "Library/Audio/Plug-Ins/VST", '/'));
            out.push(join(home, "Library/Audio/Plug-Ins/VST3", '/'));
            out.push(join(home, "Library/Audio/Plug-Ins/Components", '/'));
            out.push(join(home, "Library/Audio/Plug-Ins/CLAP", '/'));
        },
        Platform::Windows => {
            let pf = match program_files {
                Some(p) => owned(p),
                None => owned("C:\\Program Files"),
            };
            let pf86 = match program_files_x86 {
                Some(p) => owned(p),
                None => owned("C:\\Program Files (x86)"),
            };
            let common = join(pf.as_str(), "Common Files", '\\');
            let steinberg = join(pf.as_str(), "Steinberg", '\\');
            let common86 = join(pf86.as_str(), "Common Files", '\\');
            let steinberg86 = join(pf86.as_str(), "Steinberg", '\\');
            out.push(join(common.as_str(), "VST3", '\\'));
            out.push(join(common.as_str(), "CLAP", '\\'));
            out.push(join(pf.as_str(), "VSTPlugins", '\\'));
            out.push(join(steinberg.as_str(), "VSTPlugins", '\\'));
            out.push(join(common86.as_str(), "VST3", '\\'));
            out.push(join(common86.as_str(), "CLAP", '\\'));
            out.push(join(pf86.as_str(), "VSTPlugins", '\\'));
            out.push(join(steinberg86.as_str(), "VSTPlugins", '\\'));
        },
        _ => {
            out.push(owned("/usr/lib/vst"));
            out.push(owned("/usr/lib/vst3"));
            out.push(owned("/usr/lib/clap"));
            out.push(owned("/usr/local/lib/vst"));
            out.push(owned("/usr/local/lib/vst3"));
            out.push(owned("/usr/local/lib/clap"));
            out.push(join(home, ".vst", '/'));
            out.push(join(home, ".vst3", '/'));
            out.push(join(home, ".clap", '/'));
        },
    }
    assert(strings_view(out@) =~= spec_vst_dirs(
        platform,
        home@,
        crate::text::opt_view(program_files),
        crate::text::opt_view(program_files_x86),
    ));
    out
}

/// The folders the preset walk starts from, before checking which exist.
pub open spec fn spec_preset_roots(
    platform: Platform,
    home: Seq<char>,
    program_files: Option<Seq<char>>,
    appdata: Option<Seq<char>>,
    local_appdata: Option<Seq<char>>,
) -> Seq<Seq<char>> {
    match platform {
        Platform::MacOs => seq![
            spec_join(home, "Library/Audio/Presets"@, '/'),
            "/Library/Audio/Presets"@,
            spec_join(home, "Music"@, '/'),
            spec_join(home, "Documents"@, '/'),
        ],
        Platform::Windows => {
            let docs = seq![spec_join(home, "Documents"@, '\\')];
            let pf = match program_files {
                Some(p) => seq![spec_join(spec_join(p, "Common Files"@, '\\'), "VST3 Presets"@, '\\')],
                None => Seq::empty(),
            };
            let ad = match appdata {
                Some(a) => seq![a],
                None => Seq::empty(),
            };
            let lad = match local_appdata {
                Some(a) => seq![a],
                None => Seq::empty(),
            };
            docs + pf + ad + lad
        },
        Platform::Linux => seq![
            spec_join(home, ".vst3/presets"@, '/'),
            spec_join(home, ".local/share"@, '/'),
            spec_join(home, "Documents"@, '/'),
        ],
        Platform::Other => Seq::empty(),
    }
}

/// The folders the preset walk starts from on `platform`.
pub fn preset_root_candidates(
    platform: Platform,
    home: &str,
    program_files: Option<&str>,
    appdata: Option<&str>,
    local_appdata: Option<&str>,
) -> (r: Vec<String>)
    ensures
        strings_view(r@) == spec_preset_roots(
            platform,
            home@,
            crate::text::opt_view(program_files),
            crate::text::opt_view(appdata),
            crate::text::opt_view(local_appdata),
        ),
{
    let mut out: Vec<String> = Vec::new();
    match platform {
        Platform::MacOs => {
            out.push(join(home, "Library/Audio/Presets", '/'));
            out.push(owned("/Library/Audio/Presets"));
            out.push(join(home, "Music", '/'));
            out.push(join(home, "Documents", '/'));
        },
        Platform::Windows => {
            out.push(join(home, "Documents", '\\'));
            if let Some(p) = program_files {
                let common = join(p, "Common Files", '\\');
                out.push(join(common.as_str(), "VST3 Presets", '\\'));
            }
            if let Some(a) = appdata {
                out.push(owned(a));
            }
            if let Some(a) = local_appdata {
                out.push(owned(a));
            }
        },
        Platform::Linux => {
            out.push(join(home, ".vst3/presets", '/'));
            out.push(join(home, ".local/share", '/'));
            out.push(join(home, "Documents", '/'));
        },
        Platform::Other => {},
    }
    assert(strings_view(out@) =~= spec_preset_roots(
        platform,
        home@,
        crate::text::opt_view(program_files),
        crate::text::opt_view(appdata),
        crate::text::opt_view(local_appdata),
    ));
    out
}

/// The folders the PDF walk starts from, before checking which exist: the
/// user's documents, desktop and downloads.
pub open spec fn spec_pdf_roots(platform: Platform, home: Seq<char>) -> Seq<Seq<char>> {
    if platform == Platform::Other {
        Seq::empty()
    } else {
        let sep = sep_of(platform);
        seq![spec_join(home, "Documents"@, sep), spec_join(home, "Desktop"@, sep), spec_join(home, "Downloads"@, sep)]
    }
}

/// The folders the PDF walk starts from on `platform`.
pub fn pdf_root_candidates(platform: Platform, home: &str) -> (r: Vec<String>)
    ensures
        strings_view(r@) == spec_pdf_roots(platform, home@),
{
    let mut out: Vec<String> = Vec::new();
    if platform != Platform::Other {
        let sep = if platform == Platform::Windows { '\\' } else { '/' };
        out.push(join(home, "Documents", sep));
        out.push(join(home, "Desktop", sep));
        out.push(join(home, "Downloads", sep));
    }
    assert(strings_view(out@) =~= spec_pdf_roots(platform, home@));
    out
}

/// The folders the MIDI walk starts from, before checking which exist: the home
/// folder when known, and on macOS the system preset folder.
pub open spec fn spec_midi_roots(platform: Platform, home: Seq<char>) -> Seq<Seq<char>> {
    let h: Seq<Seq<char>> = if home.len() > 0 { seq![home] } else { Seq::empty() };
    if platform == Platform::MacOs { h.push("/Library/Audio/Presets"@) } else { h }
}

/// The folders the MIDI walk starts from on `platform`.
pub fn midi_root_candidates(platform: Platform, home: &str) -> (r: Vec<String>)
    ensures
        strings_view(r@) == spec_midi_roots(platform, home@),
{
    let mut out: Vec<String> = Vec::new();
    if !home.is_empty() {
        out.push(owned(home));
    }
    if platform == Platform::MacOs {
        out.push(owned("/Library/Audio/Presets"));
    }
    assert(strings_view(out@) =~= spec_midi_roots(platform, home@));
    out
}

} // verus!
