//! Opening a file with a named application: which action to take on each
//! platform, and how a human-readable application name ("TextEdit", "Music",
//! "Audacity" …) is looked up as an executable on Windows and Linux. The
//! process spawning and file-system probes are done by the caller, which hands
//! their answers back.
use vstd::prelude::*;
use crate::patterns::strs_view;
use crate::text::{contains_seq, contains_str, debug_quoted, owned, push_str, str_debug, str_eq, trim, trim_ws};

verus! {

/// The operating system the application runs on.
#[derive(Clone, Copy, PartialEq, Eq, Debug, Structural)]
pub enum Platform {
    MacOs,
    Windows,
    Linux,
    Other,
}

/// What opening a file with a named application comes down to.
#[derive(Debug)]
pub enum OpenAction {
    /// Give up with this message.
    Fail(String),
    /// macOS: run `open -a <app> <file>`.
    OpenWithMac(String),
    /// Open the file with the system's default application.
    OpenDefault,
    /// Find the executable for this application name, then run it on the file.
    Launch(String),
}

pub open spec fn action_view(a: OpenAction) -> (int, Seq<char>) {
    match a {
        OpenAction::Fail(m) => (0, m@),
        OpenAction::OpenWithMac(app) => (1, app@),
        OpenAction::OpenDefault => (2, Seq::empty()),
        OpenAction::Launch(app) => (3, app@),
    }
}

/// The action for opening the file (shown as `file_display`, existing or not)
/// with `app_name`: the trimmed name must not be empty and the file must exist;
/// then macOS hands it to `open -a`, Windows and Linux refuse GarageBand and
/// Logic Pro, open "Preview" with the default application and launch anything
/// else; other systems are not supported.
pub open spec fn spec_open_action(file_display: Seq<char>, file_exists: bool, app_name: Seq<char>, platform: Platform) -> (int, Seq<char>) {
    let app = trim_ws(app_name);
    if app.len() == 0 {
        (0, "application name is empty"@)
    } else if !file_exists {
        (0, "File not found: "@ + file_display)
    } else {
        match platform {
            Platform::MacOs => (1, app),
            Platform::Windows | Platform::Linux => if app == "GarageBand"@ || app == "Logic Pro"@ {
                (0, app + " is only available on macOS"@)
            } else if app == "Preview"@ {
                (2, Seq::empty())
            } else {
                (3, app)
            },
            Platform::Other => (0, "open_with_app is not supported on this platform"@),
        }
    }
}

fn concat(a: &str, b: &str) -> (r: String)
    ensures
        r@ == a@ + b@,
{
    let mut out = owned(a);
    push_str(&mut out, b);
    out
}

/// Decides how to open a file with a named application.
pub fn open_with_application(file_display: &str, file_exists: bool, app_name: &str, platform: Platform) -> (r: OpenAction)
    ensures
        action_view(r) == spec_open_action(file_display@, file_exists, app_name@, platform),
{
    let app = trim(app_name);
    if app.is_empty() {
        return OpenAction::Fail(owned("application name is empty"));
    }
    if !file_exists {
        return OpenAction::Fail(concat("File not found: ", file_display));
    }
    match platform {
        Platform::MacOs => OpenAction::OpenWithMac(owned(app)),
        Platform::Windows | Platform::Linux => {
            if str_eq(app, "GarageBand") || str_eq(app, "Logic Pro") {
                OpenAction::Fail(concat(app, " is only available on macOS"))
            } else if str_eq(app, "Preview") {
                OpenAction::OpenDefault
            } else {
                OpenAction::Launch(owned(app))
            }
        },
        Platform::Other => OpenAction::Fail(owned("open_with_app is not supported on this platform")),
    }
}

/// One way of finding an executable.
#[derive(Debug)]
pub enum Probe {
    /// Windows: the first hit of `where <name>` that is a file.
    Where(String),
    /// Linux: the first hit of `which <name>` that is a file.
    Which(String),
    /// This path, if it is a file.
    IsFile(String),
    /// Windows: a `Live*.exe` under `Ableton\*Live*\Program` in ProgramData or Program Files.
    FindAbletonLive,
    /// Windows: `Acrobat\AcroRd32.exe` under an `Acrobat*` folder in Program Files.
    FindAcrobatReader,
}

/// How an application name that is not itself a file is turned into an executable.
#[derive(Debug)]
pub enum Lookup {
    /// The name is a path: use it if it exists, else fail with `missing`.
    Path { missing: String },
    /// Try the probes in order and take the first executable found; fail with
    /// `missing` when none finds one.
    Search { probes: Vec<Probe>, missing: String },
}

/// A probe seen as a kind and a name.
pub open spec fn probe_view(p: Probe) -> (int, Seq<char>) {
    match p {
        Probe::Where(n) => (0, n@),
        Probe::Which(n) => (1, n@),
        Probe::IsFile(n) => (2, n@),
        Probe::FindAbletonLive => (3, Seq::empty()),
        Probe::FindAcrobatReader => (4, Seq::empty()),
    }
}

pub open spec fn probes_view(v: Vec<Probe>) -> Seq<(int, Seq<char>)> {
    v@.map_values(|p: Probe| probe_view(p))
}

/// A lookup seen as plain values: path or search, probes, and the error.
pub open spec fn lookup_view(l: Lookup) -> (bool, Seq<(int, Seq<char>)>, Seq<char>) {
    match l {
        Lookup::Path { missing } => (true, Seq::empty(), missing@),
        Lookup::Search { probes, missing } => (false, probes_view(probes), missing@),
    }
}

pub open spec fn wh(n: Seq<char>) -> (int, Seq<char>) {
    (0, n)
}

pub open spec fn wc(n: Seq<char>) -> (int, Seq<char>) {
    (1, n)
}

pub open spec fn isf(n: Seq<char>) -> (int, Seq<char>) {
    (2, n)
}

pub open spec fn is_ableton_name(app: Seq<char>) -> bool {
    app == "Ableton Live 12 Standard"@ || app == "Ableton Live 11 Suite"@ || app == "Ableton Live 12 Suite"@
}

/// The VLC probes of Windows.
pub open spec fn vlc_probes() -> Seq<(int, Seq<char>)> {
    seq![
        wh("vlc.exe"@),
        isf("C:\\Program Files\\VideoLAN\\VLC\\vlc.exe"@),
        isf("C:\\Program Files (x86)\\VideoLAN\\VLC\\vlc.exe"@),
    ]
}

pub open spec fn vlc_missing() -> Seq<char> {
    "VLC not found (install VLC or map QuickTime to another player)"@
}

/// How Windows looks up an application name that is not a file.
pub open spec fn spec_windows_lookup(app: Seq<char>) -> (bool, Seq<(int, Seq<char>)>, Seq<char>) {
    if contains_seq(app, "/"@) || contains_seq(app, "\\"@) {
        (true, Seq::empty(), "application path not found: "@ + app)
    } else if app == "TextEdit"@ {
        (false, seq![wh("notepad.exe"@)], "notepad.exe not found (expected on Windows)"@)
    } else if app == "Music"@ {
        (false, seq![isf("C:\\Program Files\\Windows Media Player\\wmplayer.exe"@)] + vlc_probes(), vlc_missing())
    } else if app == "QuickTime Player"@ {
        (false, vlc_probes(), vlc_missing())
    } else if app == "Audacity"@ {
        (
            false,
            seq![wh("audacity.exe"@)],
            "Audacity not found in PATH (install Audacity or pass the full path to Audacity.exe)"@,
        )
    } else if is_ableton_name(app) {
        (false, seq![(3, Seq::empty())], "Ableton Live executable not found under Program Files or ProgramData"@)
    } else if app == "Adobe Acrobat"@ {
        (false, seq![(4, Seq::empty()), wh("AcroRd32.exe"@)], "Adobe Acrobat Reader not found under Program Files or PATH"@)
    } else {
        (
            false,
            seq![wh(app), wh(app + ".exe"@)],
            "Could not resolve application "@ + str_debug(app)
                + ". Install the app, add it to PATH, or pass the full path to the .exe."@,
        )
    }
}

fn vlc_probe_list(first: Option<&str>) -> (r: Vec<Probe>)
    ensures
        probes_view(r) == match first {
            Some(f) => seq![isf(f@)] + vlc_probes(),
            None => vlc_probes(),
        },
{
    let mut v: Vec<Probe> = Vec::new();
    if let Some(f) = first {
        v.push(Probe::IsFile(owned(f)));
    }
    v.push(Probe::Where(owned("vlc.exe")));
    v.push(Probe::IsFile(owned("C:\\Program Files\\VideoLAN\\VLC\\vlc.exe")));
    v.push(Probe::IsFile(owned("C:\\Program Files (x86)\\VideoLAN\\VLC\\vlc.exe")));
    proof {
        match first {
            Some(f) => assert(probes_view(v) =~= seq![isf(f@)] + vlc_probes()),
            None => assert(probes_view(v) =~= vlc_probes()),
        }
    }
    v
}

fn one_probe(p: Probe) -> (r: Vec<Probe>)
    ensures
        probes_view(r) == seq![probe_view(p)],
{
    let mut v: Vec<Probe> = Vec::new();
    v.push(p);
    assert(probes_view(v) =~= seq![probe_view(p)]);
    v
}

fn two_probes(p: Probe, q: Probe) -> (r: Vec<Probe>)
    ensures
        probes_view(r) == seq![probe_view(p), probe_view(q)],
{
    let mut v: Vec<Probe> = Vec::new();
    v.push(p);
    v.push(q);
    assert(probes_view(v) =~= seq![probe_view(p), probe_view(q)]);
    v
}

/// How Windows turns an application name that is not itself a file into an
/// executable: a name with a slash or backslash is a path; known names map to
/// their programs (TextEdit to Notepad, Music and QuickTime Player to Windows
/// Media Player or VLC, …); anything else is searched in PATH as is and with
/// `.exe`.
pub fn windows_lookup(app_name: &str) -> (r: Lookup)
    ensures
        lookup_view(r) == spec_windows_lookup(app_name@),
{
    if contains_str(app_name, "/") || contains_str(app_name, "\\") {
        return Lookup::Path { missing: concat("application path not found: ", app_name) };
    }
    if str_eq(app_name, "TextEdit") {
        Lookup::Search {
            probes: one_probe(Probe::Where(owned("notepad.exe"))),
            missing: owned("notepad.exe not found (expected on Windows)"),
        }
    } else if str_eq(app_name, "Music") {
        Lookup::Search {
            probes: vlc_probe_list(Some("C:\\Program Files\\Windows Media Player\\wmplayer.exe")),
            missing: owned("VLC not found (install VLC or map QuickTime to another player)"),
        }
    } else if str_eq(app_name, "QuickTime Player") {
        Lookup::Search {
            probes: vlc_probe_list(None),
            missing: owned("VLC not found (install VLC or map QuickTime to another player)"),
        }
    } else if str_eq(app_name, "Audacity") {
        Lookup::Search {
            probes: one_probe(Probe::Where(owned("audacity.exe"))),
            missing: owned("Audacity not found in PATH (install Audacity or pass the full path to Audacity.exe)"),
        }
    } else if str_eq(app_name, "Ableton Live 12 Standard") || str_eq(app_name, "Ableton Live 11 Suite") || str_eq(
        app_name,
        "Ableton Live 12 Suite",
    ) {
        Lookup::Search {
            probes: one_probe(Probe::FindAbletonLive),
            missing: owned("Ableton Live executable not found under Program Files or ProgramData"),
        }
    } else if str_eq(app_name, "Adobe Acrobat") {
        Lookup::Search {
            probes: two_probes(Probe::FindAcrobatReader, Probe::Where(owned("AcroRd32.exe"))),
            missing: owned("Adobe Acrobat Reader not found under Program Files or PATH"),
        }
    } else {
        let mut missing = concat("Could not resolve application ", debug_quoted(app_name).as_str());
        push_str(&mut missing, ". Install the app, add it to PATH, or pass the full path to the .exe.");
        Lookup::Search {
            probes: two_probes(Probe::Where(owned(app_name)), Probe::Where(concat(app_name, ".exe"))),
            missing,
        }
    }
}

pub open spec fn which_all(names: Seq<Seq<char>>) -> Seq<(int, Seq<char>)> {
    names.map_values(|n: Seq<char>| wc(n))
}

/// How Linux looks up an application name that is not a file.
pub open spec fn spec_linux_lookup(app: Seq<char>) -> (bool, Seq<(int, Seq<char>)>, Seq<char>) {
    if contains_seq(app, "/"@) {
        (true, Seq::empty(), "application path not found: "@ + app)
    } else if app == "TextEdit"@ {
        (
            false,
            which_all(seq!["gnome-text-editor"@, "gedit"@, "kwrite"@, "mousepad"@, "xed"@, "pluma"@, "leafpad"@]),
            "No text editor found in PATH (install gedit, gnome-text-editor, or similar)"@,
        )
    } else if app == "Music"@ {
        (false, which_all(seq!["vlc"@, "mpv"@, "audacious"@, "rhythmbox"@]), "No music player found in PATH (install vlc or mpv)"@)
    } else if app == "QuickTime Player"@ {
        (false, which_all(seq!["vlc"@, "mpv"@, "totem"@, "celluloid"@]), "No video player found in PATH (install vlc or mpv)"@)
    } else if app == "Audacity"@ {
        (false, which_all(seq!["audacity"@]), "Audacity not found in PATH (install Audacity or pass the full path)"@)
    } else if is_ableton_name(app) {
        (
            false,
            which_all(seq!["Live"@, "live"@, "ableton"@]),
            "Ableton Live not found in PATH (install Ableton or pass the full path to the Live binary)"@,
        )
    } else if app == "Adobe Acrobat"@ {
        (
            false,
            which_all(seq!["acroread"@, "evince"@, "okular"@, "atril"@, "xreader"@]),
            "PDF viewer not found in PATH (install evince, okular, or Adobe Reader)"@,
        )
    } else {
        (
            false,
            which_all(seq![app]),
            "Could not resolve application "@ + str_debug(app) + " in PATH. Pass a full path to the binary."@,
        )
    }
}

fn which_list(names: &Vec<&str>) -> (r: Vec<Probe>)
    ensures
        probes_view(r) == which_all(strs_view(*names)),
{
    let mut v: Vec<Probe> = Vec::new();
    let mut i: usize = 0;
    while i < names.len()
        invariant
            i <= names.len(),
            probes_view(v) == which_all(strs_view(*names).take(i as int)),
        decreases names.len() - i,
    {
        let ghost before = v@;
        v.push(Probe::Which(owned(names[i])));
        proof {
            let m = strs_view(*names);
            assert(m.take(i + 1) =~= m.take(i as int).push(names@[i as int]@));
            assert(which_all(m.take(i + 1)) =~= which_all(m.take(i as int)).push(wc(names@[i as int]@)));
        }
        i = i + 1;
        assert(probes_view(v) =~= which_all(strs_view(*names).take(i as int)));
    }
    assert(strs_view(*names).take(i as int) =~= strs_view(*names));
    v
}

fn search(names: Vec<&str>, missing: String) -> (r: Lookup)
    ensures
        lookup_view(r) == (false, which_all(strs_view(names)), missing@),
{
    Lookup::Search { probes: which_list(&names), missing }
}

/// How Linux turns an application name that is not itself a file into an
/// executable: a name with a slash is a path; known names map to lists of
/// programs searched in PATH (TextEdit to gnome-text-editor, gedit, …; Music to
/// vlc, mpv, …); anything else is searched in PATH as is.
pub fn linux_lookup(app_name: &str) -> (r: Lookup)
    ensures
        lookup_view(r) == spec_linux_lookup(app_name@),
{
    if contains_str(app_name, "/") {
        return Lookup::Path { missing: concat("application path not found: ", app_name) };
    }
    if str_eq(app_name, "TextEdit") {
        let names = vec!["gnome-text-editor", "gedit", "kwrite", "mousepad", "xed", "pluma", "leafpad"];
        let ghost want = seq!["gnome-text-editor"@, "gedit"@, "kwrite"@, "mousepad"@, "xed"@, "pluma"@, "leafpad"@];
        assert(strs_view(names) =~= want);
        search(names, owned("No text editor found in PATH (install gedit, gnome-text-editor, or similar)"))
    } else if str_eq(app_name, "Music") {
        let names = vec!["vlc", "mpv", "audacious", "rhythmbox"];
        assert(strs_view(names) =~= seq!["vlc"@, "mpv"@, "audacious"@, "rhythmbox"@]);
        search(names, owned("No music player found in PATH (install vlc or mpv)"))
    } else if str_eq(app_name, "QuickTime Player") {
        let names = vec!["vlc", "mpv", "totem", "celluloid"];
        assert(strs_view(names) =~= seq!["vlc"@, "mpv"@, "totem"@, "celluloid"@]);
        search(names, owned("No video player found in PATH (install vlc or mpv)"))
    } else if str_eq(app_name, "Audacity") {
        let names = vec!["audacity"];
        assert(strs_view(names) =~= seq!["audacity"@]);
        search(names, owned("Audacity not found in PATH (install Audacity or pass the full path)"))
    } else if str_eq(app_name, "Ableton Live 12 Standard") || str_eq(app_name, "Ableton Live 11 Suite") || str_eq(
        app_name,
        "Ableton Live 12 Suite",
    ) {
        let names = vec!["Live", "live", "ableton"];
        assert(strs_view(names) =~= seq!["Live"@, "live"@, "ableton"@]);
        search(names, owned("Ableton Live not found in PATH (install Ableton or pass the full path to the Live binary)"))
    } else if str_eq(app_name, "Adobe Acrobat") {
        let names = vec!["acroread", "evince", "okular", "atril", "xreader"];
        assert(strs_view(names) =~= seq!["acroread"@, "evince"@, "okular"@, "atril"@, "xreader"@]);
        search(names, owned("PDF viewer not found in PATH (install evince, okular, or Adobe Reader)"))
    } else {
        let mut missing = concat("Could not resolve application ", debug_quoted(app_name).as_str());
        push_str(&mut missing, " in PATH. Pass a full path to the binary.");
        let names = vec![app_name];
        assert(strs_view(names) =~= seq![app_name@]);
        search(names, missing)
    }
}

/// What a lookup answers: the name itself when it is a file; for a path, the
/// name when it exists, else the path error; for a search, the first executable
/// found, else the search's error.
pub open spec fn spec_resolve(app: Seq<char>, is_file: bool, lookup: (bool, Seq<(int, Seq<char>)>, Seq<char>), exists: bool, found: Option<Seq<char>>) -> Result<Seq<char>, Seq<char>> {
    if is_file {
        Ok(app)
    } else if lookup.0 {
        if exists { Ok(app) } else { Err(lookup.2) }
    } else {
        match found {
            Some(p) => Ok(p),
            None => Err(lookup.2),
        }
    }
}

pub open spec fn result_view(r: Result<String, String>) -> Result<Seq<char>, Seq<char>> {
    match r {
        Ok(s) => Ok(s@),
        Err(e) => Err(e@),
    }
}

/// The executable for `app_name` given the answers of the system: whether the
/// name is a file, and, as `lookup` asks, whether the path exists or what the
/// first successful probe found.
pub fn resolve_executable(app_name: &str, is_file: bool, lookup: &Lookup, exists: bool, found: Option<String>) -> (r: Result<String, String>)
    ensures
        result_view(r) == spec_resolve(app_name@, is_file, lookup_view(*lookup), exists, match found {
            Some(p) => Some(p@),
            None => None,
        }),
{
    if is_file {
        return Ok(owned(app_name));
    }
    match lookup {
        Lookup::Path { missing } => if exists {
            Ok(owned(app_name))
        } else {
            Err(missing.clone())
        },
        Lookup::Search { probes: _, missing } => match found {
            Some(p) => Ok(p),
            None => Err(missing.clone()),
        },
    }
}

/// The program and arguments that open `file` with the system's default
/// application: `open` on macOS, `cmd /C start "" file` on Windows, `xdg-open`
/// on Linux; none elsewhere.
pub open spec fn spec_default_opener(platform: Platform, file: Seq<char>) -> Option<(Seq<char>, Seq<Seq<char>>)> {
    match platform {
        Platform::MacOs => Some(("open"@, seq![file])),
        Platform::Windows => Some(("cmd"@, seq!["/C"@, "start"@, ""@, file])),
        Platform::Linux => Some(("xdg-open"@, seq![file])),
        Platform::Other => None,
    }
}

pub open spec fn command_view(c: Option<(&'static str, Vec<String>)>) -> Option<(Seq<char>, Seq<Seq<char>>)> {
    match c {
        Some((p, args)) => Some((p@, args@.map_values(|a: String| a@))),
        None => None,
    }
}

/// The command that opens `file` with the system's default application.
pub fn default_opener(platform: Platform, file: &str) -> (r: Option<(&'static str, Vec<String>)>)
    ensures
        command_view(r) == spec_default_opener(platform, file@),
{
    proof {
        reveal_strlit("");
        reveal_strlit("/C");
        reveal_strlit("start");
    }
    match platform {
        Platform::MacOs => {
            let args = vec![owned(file)];
            assert(args@.map_values(|a: String| a@) =~= seq![file@]);
            Some(("open", args))
        },
        Platform::Windows => {
            let args = vec![owned("/C"), owned("start"), owned(""), owned(file)];
            assert(args@.map_values(|a: String| a@) =~= seq!["/C"@, "start"@, ""@, file@]);
            Some(("cmd", args))
        },
        Platform::Linux => {
            let args = vec![owned(file)];
            assert(args@.map_values(|a: String| a@) =~= seq![file@]);
            Some(("xdg-open", args))
        },
        Platform::Other => None,
    }
}

/// The message when the default application could not open a DAW project: on
/// macOS the reason `open` gave, unless it says no application handles the
/// file; elsewhere that no application is installed for it.
pub open spec fn spec_project_open_failure(platform: Platform, stderr: Seq<char>) -> Seq<char> {
    let none = "No application installed to open this project file"@;
    if platform == Platform::MacOs {
        if contains_seq(stderr, "No application can open"@) || contains_seq(stderr, "no application set"@) {
            none
        } else {
            "Failed to open project: "@ + trim_ws(stderr)
        }
    } else {
        none
    }
}

/// The message for a DAW project that the default application did not open.
pub fn project_open_failure(platform: Platform, stderr: &str) -> (r: String)
    ensures
        r@ == spec_project_open_failure(platform, stderr@),
{
    if platform == Platform::MacOs && !contains_str(stderr, "No application can open") && !contains_str(
        stderr,
        "no application set",
    ) {
        let mut out = owned("Failed to open project: ");
        push_str(&mut out, trim(stderr));
        return out;
    }
    owned("No application installed to open this project file")
}

/// The message when the program that opens a DAW project could not be started:
/// on Linux, that no application is installed for it, with the reason.
pub open spec fn spec_project_spawn_failure(platform: Platform, reason: Seq<char>) -> Seq<char> {
    if platform == Platform::Linux {
        "No application installed to open this project file: "@ + reason
    } else {
        reason
    }
}

/// The message for a DAW project whose opener could not be started.
pub fn project_spawn_failure(platform: Platform, reason: &str) -> (r: String)
    ensures
        r@ == spec_project_spawn_failure(platform, reason@),
{
    if platform == Platform::Linux {
        let mut out = owned("No application installed to open this project file: ");
        push_str(&mut out, reason);
        out
    } else {
        owned(reason)
    }
}

/// The message when opening a file with the default application failed: what
/// `open` said on macOS, else which launcher failed.
pub open spec fn spec_file_open_failure(platform: Platform, stderr: Seq<char>) -> Seq<char> {
    match platform {
        Platform::MacOs => "open failed: "@ + trim_ws(stderr),
        Platform::Windows => "start failed"@,
        _ => "xdg-open failed"@,
    }
}

/// The message for a file that the default application did not open.
pub fn file_open_failure(platform: Platform, stderr: &str) -> (r: String)
    ensures
        r@ == spec_file_open_failure(platform, stderr@),
{
    match platform {
        Platform::MacOs => {
            let mut out = owned("open failed: ");
            push_str(&mut out, trim(stderr));
            out
        },
        Platform::Windows => owned("start failed"),
        _ => owned("xdg-open failed"),
    }
}

/// How a file is shown in its folder: `open -R` on macOS, `explorer
/// /select,<path>` on Windows, and on Linux the folder itself is opened.
pub enum Reveal {
    Run { program: &'static str, args: Vec<String> },
    OpenParent,
    Unsupported,
}

pub open spec fn reveal_view(r: Reveal) -> (int, Seq<char>, Seq<Seq<char>>) {
    match r {
        Reveal::Run { program, args } => (0, program@, args@.map_values(|a: String| a@)),
        Reveal::OpenParent => (1, Seq::empty(), Seq::empty()),
        Reveal::Unsupported => (2, Seq::empty(), Seq::empty()),
    }
}

pub open spec fn spec_reveal(platform: Platform, path: Seq<char>) -> (int, Seq<char>, Seq<Seq<char>>) {
    match platform {
        Platform::MacOs => (0, "open"@, seq!["-R"@, path]),
        Platform::Windows => (0, "explorer"@, seq!["/select,"@ + path]),
        Platform::Linux => (1, Seq::empty(), Seq::empty()),
        Platform::Other => (2, Seq::empty(), Seq::empty()),
    }
}

/// How to show `path` in its folder on `platform`.
pub fn reveal_in_folder(platform: Platform, path: &str) -> (r: Reveal)
    ensures
        reveal_view(r) == spec_reveal(platform, path@),
{
    match platform {
        Platform::MacOs => {
            let args = vec![owned("-R"), owned(path)];
            assert(args@.map_values(|a: String| a@) =~= seq!["-R"@, path@]);
            Reveal::Run { program: "open", args }
        },
        Platform::Windows => {
            let mut sel = owned("/select,");
            push_str(&mut sel, path);
            let args = vec![sel];
            assert(args@.map_values(|a: String| a@) =~= seq!["/select,"@ + path@]);
            Reveal::Run { program: "explorer", args }
        },
        Platform::Linux => Reveal::OpenParent,
        Platform::Other => Reveal::Unsupported,
    }
}

} // verus!
