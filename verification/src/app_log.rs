//! Decisions of the application log: verbosity, which lines are written, how a
//! line looks, when the file is rotated, and a few preference look-ups.
use vstd::prelude::*;
use crate::text::{opt_view, chars_of, decimal, is_unicode_whitespace, owned, push_char, push_decimal, push_str, str_eq, trim_start_ws};

verus! {

/// Verbosity of the application log: 0 = quiet, 1 = normal, 2 = verbose.
pub struct LogVerbosity {
    pub level: u8,
}

impl LogVerbosity {
    /// Normal verbosity.
    pub fn new() -> (r: LogVerbosity)
        ensures
            r.level == 1,
    {
        LogVerbosity { level: 1 }
    }

    /// Sets the level.
    pub fn store(&mut self, level: u8)
        ensures
            final(self).level == level,
    {
        self.level = level;
    }

    /// The current level.
    pub fn load(&self) -> (r: u8)
        ensures
            r == self.level,
    {
        self.level
    }
}

/// The current log verbosity level.
pub fn log_verbosity_level(v: &LogVerbosity) -> (r: u8)
    ensures
        r == v.level,
{
    v.level
}

/// The level a `logVerbosity` preference selects ("normal" when unset).
pub open spec fn spec_level_of(pref: Option<Seq<char>>) -> u8 {
    match pref {
        Some(s) => if s == "quiet"@ { 0 } else if s == "verbose"@ { 2 } else { 1 },
        None => 1,
    }
}

/// The verbosity level for a `logVerbosity` preference value.
pub fn verbosity_from_pref(pref: Option<&str>) -> (r: u8)
    ensures
        r == spec_level_of(opt_view(pref)),
{
    match pref {
        Some(s) => if str_eq(s, "quiet") {
            0
        } else if str_eq(s, "verbose") {
            2
        } else {
            1
        },
        None => 1,
    }
}

/// Message prefixes that quiet verbosity hides (none at present).
pub open spec fn quiet_prefixes() -> Seq<Seq<char>> {
    Seq::empty()
}

/// Whether `c` has the Unicode `White_Space` property, as `char::is_whitespace`
/// tests it.
pub(crate) fn is_whitespace(c: char) -> (r: bool)
    ensures
        r == is_unicode_whitespace(c),
{
    let u = c as u32;
    (0x9 <= u && u <= 0xD) || u == 0x20 || u == 0x85 || u == 0xA0 || u == 0x1680 || (0x2000 <= u && u <= 0x200A)
        || u == 0x2028 || u == 0x2029 || u == 0x202F || u == 0x205F || u == 0x3000
}

fn trim_start_chars(s: &str) -> (r: Vec<char>)
    ensures
        r@ == trim_start_ws(s@),
{
    let cs = chars_of(s);
    let mut i: usize = 0;
    assert(cs@.skip(0) =~= cs@);
    while i < cs.len() && is_whitespace(cs[i])
        invariant
            cs@ == s@,
            i <= cs.len(),
            trim_start_ws(cs@.skip(i as int)) == trim_start_ws(s@),
        decreases cs.len() - i,
    {
        assert(cs@.skip(i as int).drop_first() =~= cs@.skip((i + 1) as int));
        i = i + 1;
    }
    let mut out: Vec<char> = Vec::new();
    let mut k: usize = i;
    while k < cs.len()
        invariant
            i <= k <= cs.len(),
            out@ == cs@.subrange(i as int, k as int),
        decreases cs.len() - k,
    {
        out.push(cs[k]);
        k = k + 1;
        assert(out@ =~= cs@.subrange(i as int, k as int));
    }
    assert(out@ =~= cs@.skip(i as int));
    out
}

fn starts_with_chars(s: &Vec<char>, p: &str) -> (r: bool)
    ensures
        r == (p@.len() <= s@.len() && s@.subrange(0, p@.len() as int) == p@),
{
    let pc = chars_of(p);
    if pc.len() > s.len() {
        return false;
    }
    let mut i: usize = 0;
    while i < pc.len()
        invariant
            pc@ == p@,
            pc.len() <= s.len(),
            i <= pc.len(),
            forall|k: int| 0 <= k < i ==> s@[k] == pc@[k],
        decreases pc.len() - i,
    {
        if s[i] != pc[i] {
            assert(s@.subrange(0, p@.len() as int)[i as int] != p@[i as int]);
            return false;
        }
        i = i + 1;
    }
    assert(s@.subrange(0, p@.len() as int) =~= p@);
    true
}

/// Whether quiet verbosity hides a normal-level line: only at level 0, and only
/// for a line that starts (after leading whitespace) with a listed prefix.
pub open spec fn spec_suppress(level: u8, msg: Seq<char>) -> bool {
    level == 0 && exists|i: int|
        0 <= i < quiet_prefixes().len() && {
            let p = #[trigger] quiet_prefixes()[i];
            let m = trim_start_ws(msg);
            p.len() <= m.len() && m.subrange(0, p.len() as int) == p
        }
}

/// Whether the log hides this line at the current verbosity.
pub fn should_suppress_app_log_line(v: &LogVerbosity, msg: &str) -> (r: bool)
    ensures
        r == spec_suppress(v.level, msg@),
{
    if v.level != 0 {
        return false;
    }
    let prefixes: Vec<&'static str> = Vec::new();
    assert(prefixes@.len() == quiet_prefixes().len());
    if prefixes.len() == 0 {
        return false;
    }
    let m = trim_start_chars(msg);
    let mut i: usize = 0;
    while i < prefixes.len()
        invariant
            i <= prefixes.len(),
            prefixes@.len() == 0,
        decreases prefixes.len() - i,
    {
        if starts_with_chars(&m, prefixes[i]) {
            return true;
        }
        i = i + 1;
    }
    false
}

/// Runs `f` for a verbose-only message and hands the line back to be written,
/// but only at verbose level; `f` does not run otherwise.
pub fn app_log_verbose<F: FnOnce() -> String>(v: &LogVerbosity, f: F) -> (r: Option<String>)
    requires
        v.level >= 2 ==> f.requires(()),
    ensures
        v.level < 2 ==> r is None,
        v.level >= 2 ==> (r matches Some(s) && f.ensures((), s)),
{
    if v.level < 2 {
        return None;
    }
    Some(f())
}

/// A verbose-only line to write, or `None` below verbose level.
pub fn write_app_log_verbose(v: &LogVerbosity, msg: String) -> (r: Option<String>)
    ensures
        v.level < 2 ==> r is None,
        v.level >= 2 ==> (r matches Some(s) && s@ == msg@),
{
    if v.level < 2 {
        return None;
    }
    Some(msg)
}

/// A normal-level line to write, or `None` when the verbosity hides it.
pub fn write_app_log(v: &LogVerbosity, msg: String) -> (r: Option<String>)
    ensures
        spec_suppress(v.level, msg@) ==> r is None,
        !spec_suppress(v.level, msg@) ==> (r matches Some(s) && s@ == msg@),
{
    if should_suppress_app_log_line(v, msg.as_str()) {
        return None;
    }
    Some(msg)
}

/// A log line: the time stamp in brackets, the message and a newline.
pub open spec fn spec_log_line(timestamp: Seq<char>, msg: Seq<char>) -> Seq<char> {
    seq!['['] + timestamp + "] "@ + msg + seq!['\n']
}

pub fn log_line(timestamp: &str, msg: &str) -> (r: String)
    ensures
        r@ == spec_log_line(timestamp@, msg@),
{
    let mut out = String::new();
    push_char(&mut out, '[');
    push_str(&mut out, timestamp);
    push_str(&mut out, "] ");
    push_str(&mut out, msg);
    push_char(&mut out, '\n');
    out
}

/// Size above which the log file is rotated before the next line.
pub const MAX_LOG_SIZE: u64 = 5242880;

/// The log is rotated once it is larger than 5 MiB.
pub fn needs_rotation(size: u64) -> (r: bool)
    ensures
        r == (size > 5 * 1024 * 1024),
{
    size > MAX_LOG_SIZE
}

/// The shutdown line: uptime in whole minutes and remaining seconds.
pub open spec fn spec_shutdown_message(uptime: u64) -> Seq<char> {
    "APP SHUTDOWN — uptime "@ + decimal((uptime / 60) as nat) + "m "@ + decimal((uptime % 60) as nat) + "s"@
}

pub fn shutdown_message(uptime: u64) -> (r: String)
    ensures
        r@ == spec_shutdown_message(uptime),
{
    let mut out = owned("APP SHUTDOWN — uptime ");
    push_decimal(&mut out, uptime / 60);
    push_str(&mut out, "m ");
    push_decimal(&mut out, uptime % 60);
    push_str(&mut out, "s");
    out
}

/// Incremental directory scans are on unless the preference says "off".
pub fn incremental_scan_enabled(pref: Option<&str>) -> (r: bool)
    ensures
        r == (opt_view(pref) != Some("off"@)),
{
    match pref {
        Some(s) => !str_eq(s, "off"),
        None => true,
    }
}

/// The interface locale: the one asked for, else the `uiLocale` preference, else "en".
pub fn resolve_ui_locale(locale: Option<String>, pref: Option<String>) -> (r: String)
    ensures
        r@ == match locale {
            Some(l) => l@,
            None => match pref {
                Some(p) => p@,
                None => "en"@,
            },
        },
{
    match locale {
        Some(l) => l,
        None => match pref {
            Some(p) => p,
            None => owned("en"),
        },
    }
}

/// Domain of the directory-scan state shared by the unified and standalone walkers.
pub const DIRECTORY_SCAN_INCREMENTAL_DOMAIN: &'static str = "unified";

/// What a unified walk does about its incremental snapshot.
#[derive(Debug)]
pub enum SnapshotStep {
    /// Walk every directory, after writing this line to the log.
    FullWalk(String),
    /// Load the directory snapshot of the unified domain.
    LoadSnapshot,
}

pub open spec fn snapshot_step_view(s: SnapshotStep) -> Option<Seq<char>> {
    match s {
        SnapshotStep::FullWalk(line) => Some(line@),
        SnapshotStep::LoadSnapshot => None,
    }
}

/// With incremental scanning on, the snapshot is only trusted when the last
/// unified scan finished (`Ok(true)`); otherwise the walk is full and the reason
/// is logged.
pub open spec fn spec_snapshot_step(trusted: Result<bool, Seq<char>>) -> Option<Seq<char>> {
    match trusted {
        Ok(true) => None,
        Ok(false) => Some("SCAN INCREMENTAL — last unified scan did not finish successfully; full walk"@),
        Err(e) => Some("SCAN INCREMENTAL — could not read unified scan outcome ("@ + e + "); full walk"@),
    }
}

pub open spec fn bool_result_view(r: Result<bool, String>) -> Result<bool, Seq<char>> {
    match r {
        Ok(b) => Ok(b),
        Err(e) => Err(e@),
    }
}

/// Decides whether to load the incremental snapshot from whether the last
/// unified scan finished.
pub fn snapshot_step(trusted: Result<bool, String>) -> (r: SnapshotStep)
    ensures
        snapshot_step_view(r) == spec_snapshot_step(bool_result_view(trusted)),
{
    match trusted {
        Ok(true) => SnapshotStep::LoadSnapshot,
        Ok(false) => SnapshotStep::FullWalk(owned("SCAN INCREMENTAL — last unified scan did not finish successfully; full walk")),
        Err(e) => {
            let mut line = owned("SCAN INCREMENTAL — could not read unified scan outcome (");
            push_str(&mut line, e.as_str());
            push_str(&mut line, "); full walk");
            SnapshotStep::FullWalk(line)
        },
    }
}

/// After loading the snapshot (`Ok` with its number of directory keys): use it
/// and log the count at verbose level; on an error walk fully and log it.
pub open spec fn spec_snapshot_loaded(loaded: Result<u64, Seq<char>>) -> (bool, Seq<char>) {
    match loaded {
        Ok(n) => (true, "SCAN VERBOSE — incremental snapshot loaded: "@ + decimal(n as nat) + " directory keys"@),
        Err(e) => (false, "SCAN INCREMENTAL — load directory snapshot failed ("@ + e + "); full walk"@),
    }
}

/// Whether to use a loaded snapshot, with the line to log (verbose when used).
pub fn snapshot_loaded(loaded: Result<u64, String>) -> (r: (bool, String))
    ensures
        (r.0, r.1@) == spec_snapshot_loaded(match loaded {
            Ok(n) => Ok(n),
            Err(e) => Err(e@),
        }),
{
    match loaded {
        Ok(n) => {
            let mut line = owned("SCAN VERBOSE — incremental snapshot loaded: ");
            push_decimal(&mut line, n);
            push_str(&mut line, " directory keys");
            (true, line)
        },
        Err(e) => {
            let mut line = owned("SCAN INCREMENTAL — load directory snapshot failed (");
            push_str(&mut line, e.as_str());
            push_str(&mut line, "); full walk");
            (false, line)
        },
    }
}

/// Quiet verbosity hides nothing unless message prefixes are listed for it, and
/// none are: every normal-level line is written at every level.
pub proof fn law_quiet_filter_is_opt_in(level: u8, msg: Seq<char>)
    ensures
        !spec_suppress(level, msg),
{
}

} // verus!
