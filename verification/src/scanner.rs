//! Plugin records, their export form, format names, and the directory names that
//! recursive scans skip.
use vstd::prelude::*;
use crate::text::{chars_of, lower_case, owned, push_char, push_str, str_eq, unicode_lower};
use vstd::utf8::encode_utf8;
use crate::format::{dsv_escape, spec_dsv_escape};

verus! {

/// Information about a discovered audio plugin.
#[derive(Debug, Clone)]
pub struct PluginInfo {
    pub name: String,
    pub path: String,
    pub plugin_type: String,
    pub version: String,
    pub manufacturer: String,
    pub manufacturer_url: Option<String>,
    pub size: String,
    pub size_bytes: u64,
    pub modified: String,
    pub architectures: Vec<String>,
}

/// The plugin format named by a bundle extension.
pub open spec fn plugin_type_of(ext: Seq<char>) -> Seq<char> {
    if ext == ".vst"@ { "VST2"@ }
    else if ext == ".vst3"@ { "VST3"@ }
    else if ext == ".component"@ { "AU"@ }
    else if ext == ".clap"@ { "CLAP"@ }
    else if ext == ".dll"@ { "VST2"@ }
    else { "Unknown"@ }
}

/// Plugin format for a bundle extension (".vst3" gives "VST3"); "Unknown" otherwise.
pub fn get_plugin_type(ext: &str) -> (r: &'static str)
    ensures
        r@ == plugin_type_of(ext@),
{
    if str_eq(ext, ".vst") {
        "VST2"
    } else if str_eq(ext, ".vst3") {
        "VST3"
    } else if str_eq(ext, ".component") {
        "AU"
    } else if str_eq(ext, ".clap") {
        "CLAP"
    } else if str_eq(ext, ".dll") {
        "VST2"
    } else {
        "Unknown"
    }
}

/// Formats a byte count for display, as [`crate::format::format_size`] does.
pub fn format_size(bytes: u64) -> (r: String)
    ensures
        r@ == crate::format::spec_format_size(bytes as nat),
{
    crate::format::format_size(bytes)
}

// ---------------------------------------------------------------------------
// Export
// ---------------------------------------------------------------------------

/// A plugin as written to an export file.
#[derive(Debug, Clone)]
pub struct ExportPlugin {
    pub name: String,
    pub plugin_type: String,
    pub version: String,
    pub manufacturer: String,
    pub manufacturer_url: Option<String>,
    pub path: String,
    pub size: String,
    pub size_bytes: u64,
    pub modified: String,
    pub architectures: Vec<String>,
}

/// The contents of a plugin export file.
#[derive(Debug, Clone)]
pub struct ExportPayload {
    pub version: String,
    pub exported_at: String,
    pub plugins: Vec<ExportPlugin>,
}

pub open spec fn opt_text(o: Option<String>) -> Option<Seq<char>> {
    match o {
        Some(s) => Some(s@),
        None => None,
    }
}

/// The two lists of strings hold the same texts.
pub open spec fn same_texts(a: Seq<String>, b: Seq<String>) -> bool {
    a.len() == b.len() && forall|k: int| 0 <= k < a.len() ==> (#[trigger] a[k])@ == b[k]@
}

/// `e` carries every field of `p`.
pub open spec fn exports(p: PluginInfo, e: ExportPlugin) -> bool {
    &&& e.name@ == p.name@
    &&& e.plugin_type@ == p.plugin_type@
    &&& e.version@ == p.version@
    &&& e.manufacturer@ == p.manufacturer@
    &&& opt_text(e.manufacturer_url) == opt_text(p.manufacturer_url)
    &&& e.path@ == p.path@
    &&& e.size@ == p.size@
    &&& e.size_bytes == p.size_bytes
    &&& e.modified@ == p.modified@
    &&& same_texts(e.architectures@, p.architectures@)
}

fn copy_text(s: &String) -> (r: String)
    ensures
        r@ == s@,
{
    owned(s.as_str())
}

fn copy_texts(v: &Vec<String>) -> (r: Vec<String>)
    ensures
        same_texts(r@, v@),
{
    let mut out: Vec<String> = Vec::new();
    let mut i: usize = 0;
    while i < v.len()
        invariant
            i <= v.len(),
            out@.len() == i,
            forall|k: int| 0 <= k < i ==> (#[trigger] out@[k])@ == v@[k]@,
        decreases v.len() - i,
    {
        let c = copy_text(&v[i]);
        out.push(c);
        i = i + 1;
    }
    out
}

fn export_one(p: &PluginInfo) -> (r: ExportPlugin)
    ensures
        exports(*p, r),
{
    ExportPlugin {
        name: copy_text(&p.name),
        plugin_type: copy_text(&p.plugin_type),
        version: copy_text(&p.version),
        manufacturer: copy_text(&p.manufacturer),
        manufacturer_url: match &p.manufacturer_url {
            Some(u) => Some(copy_text(u)),
            None => None,
        },
        path: copy_text(&p.path),
        size: copy_text(&p.size),
        size_bytes: p.size_bytes,
        modified: copy_text(&p.modified),
        architectures: copy_texts(&p.architectures),
    }
}

/// The export records of `plugins`, one per plugin, in order.
pub fn plugins_to_export(plugins: &[PluginInfo]) -> (r: Vec<ExportPlugin>)
    ensures
        r@.len() == plugins@.len(),
        forall|i: int| 0 <= i < plugins@.len() ==> exports(#[trigger] plugins@[i], r@[i]),
{
    let mut out: Vec<ExportPlugin> = Vec::new();
    let mut i: usize = 0;
    while i < plugins.len()
        invariant
            i <= plugins.len(),
            out@.len() == i,
            forall|k: int| 0 <= k < i ==> exports(#[trigger] plugins@[k], out@[k]),
        decreases plugins.len() - i,
    {
        out.push(export_one(&plugins[i]));
        i = i + 1;
    }
    out
}

fn import_one(e: &ExportPlugin) -> (r: PluginInfo)
    ensures
        exports(r, *e),
{
    PluginInfo {
        name: copy_text(&e.name),
        path: copy_text(&e.path),
        plugin_type: copy_text(&e.plugin_type),
        version: copy_text(&e.version),
        manufacturer: copy_text(&e.manufacturer),
        manufacturer_url: match &e.manufacturer_url {
            Some(u) => Some(copy_text(u)),
            None => None,
        },
        size: copy_text(&e.size),
        size_bytes: e.size_bytes,
        modified: copy_text(&e.modified),
        architectures: copy_texts(&e.architectures),
    }
}

/// The plugin records an export holds, field for field, in order (an import).
pub fn plugins_from_export(plugins: &[ExportPlugin]) -> (r: Vec<PluginInfo>)
    ensures
        r@.len() == plugins@.len(),
        forall|i: int| 0 <= i < plugins@.len() ==> exports(#[trigger] r@[i], plugins@[i]),
{
    let mut out: Vec<PluginInfo> = Vec::new();
    let mut i: usize = 0;
    while i < plugins.len()
        invariant
            i <= plugins.len(),
            out@.len() == i,
            forall|k: int| 0 <= k < i ==> exports(#[trigger] out@[k], plugins@[k]),
        decreases plugins.len() - i,
    {
        out.push(import_one(&plugins[i]));
        i = i + 1;
    }
    out
}

/// `p` and `q` hold the same values in every field.
pub open spec fn same_plugin(p: PluginInfo, q: PluginInfo) -> bool {
    &&& p.name@ == q.name@
    &&& p.path@ == q.path@
    &&& p.plugin_type@ == q.plugin_type@
    &&& p.version@ == q.version@
    &&& p.manufacturer@ == q.manufacturer@
    &&& opt_text(p.manufacturer_url) == opt_text(q.manufacturer_url)
    &&& p.size@ == q.size@
    &&& p.size_bytes == q.size_bytes
    &&& p.modified@ == q.modified@
    &&& same_texts(p.architectures@, q.architectures@)
}

/// Importing an export gives back the plugins that were exported: a plugin
/// read back from the record that exported `p` holds what `p` held.
pub proof fn law_import_undoes_export(p: PluginInfo, e: ExportPlugin, q: PluginInfo)
    requires
        exports(p, e),
        exports(q, e),
    ensures
        same_plugin(p, q),
{
    assert forall|k: int| 0 <= k < p.architectures@.len() implies (#[trigger] p.architectures@[k])@
        == q.architectures@[k]@ by {
        assert(e.architectures@[k]@ == p.architectures@[k]@);
        assert(e.architectures@[k]@ == q.architectures@[k]@);
    }
}

/// Exporting a list and importing the export gives back the same list.
pub proof fn law_import_of_export(ps: Seq<PluginInfo>, es: Seq<ExportPlugin>, qs: Seq<PluginInfo>)
    requires
        es.len() == ps.len(),
        qs.len() == es.len(),
        forall|i: int| 0 <= i < ps.len() ==> exports(#[trigger] ps[i], es[i]),
        forall|i: int| 0 <= i < es.len() ==> exports(#[trigger] qs[i], es[i]),
    ensures
        forall|i: int| 0 <= i < ps.len() ==> same_plugin(#[trigger] ps[i], qs[i]),
{
    assert forall|i: int| 0 <= i < ps.len() implies same_plugin(#[trigger] ps[i], qs[i]) by {
        law_import_undoes_export(ps[i], es[i], qs[i]);
    }
}

// ---------------------------------------------------------------------------
// Directories that scans skip
// ---------------------------------------------------------------------------

/// Directory names that recursive scans skip (besides hidden and `@` names).
pub open spec fn skip_dir_names() -> Seq<Seq<char>> {
    seq![
        "node_modules"@,
        "bower_components"@,
        ".git"@,
        ".Trash"@,
        "$RECYCLE.BIN"@,
        "#recycle"@,
        "System Volume Information"@,
        "lost+found"@,
        ".cache"@,
        "__pycache__"@,
        "__pypackages__"@,
        "Caches"@,
        "DerivedData"@,
        "Backups.backupdb"@,
        "__MACOSX"@,
        "target"@,
        "Pods"@,
        "vendor"@,
        "#snapshot"@,
    ]
}

pub open spec fn views(v: Seq<&'static str>) -> Seq<Seq<char>> {
    v.map_values(|s: &'static str| s@)
}

/// The directory names that recursive scans skip.
pub fn scanner_skip_dirs() -> (r: Vec<&'static str>)
    ensures
        views(r@) == skip_dir_names(),
{
    let v: Vec<&'static str> = vec![
        "node_modules",
        "bower_components",
        ".git",
        ".Trash",
        "$RECYCLE.BIN",
        "#recycle",
        "System Volume Information",
        "lost+found",
        ".cache",
        "__pycache__",
        "__pypackages__",
        "Caches",
        "DerivedData",
        "Backups.backupdb",
        "__MACOSX",
        "target",
        "Pods",
        "vendor",
        "#snapshot",
    ];
    assert(views(v@) =~= skip_dir_names());
    v
}

/// Whether a scan skips a directory with this final path component.
pub fn is_skip_dir(name: &str) -> (r: bool)
    ensures
        r == skip_dir_names().contains(name@),
{
    let dirs = scanner_skip_dirs();
    let mut i: usize = 0;
    while i < dirs.len()
        invariant
            i <= dirs.len(),
            views(dirs@) == skip_dir_names(),
            forall|k: int| 0 <= k < i ==> skip_dir_names()[k] != name@,
        decreases dirs.len() - i,
    {
        if str_eq(dirs[i], name) {
            assert(skip_dir_names()[i as int] == name@);
            return true;
        }
        i = i + 1;
    }
    assert(!skip_dir_names().contains(name@)) by {
        if skip_dir_names().contains(name@) {
            let k = choose|k: int| 0 <= k < skip_dir_names().len() && skip_dir_names()[k] == name@;
            assert(skip_dir_names()[k] != name@);
        }
    }
    false
}

/// No directory name is listed twice.
pub proof fn law_skip_dirs_distinct()
    ensures
        forall|i: int, j: int|
            0 <= i < j < skip_dir_names().len() ==> #[trigger] skip_dir_names()[i] != #[trigger] skip_dir_names()[j],
{
    reveal_strlit("node_modules");
    reveal_strlit("bower_components");
    reveal_strlit(".git");
    reveal_strlit(".Trash");
    reveal_strlit("$RECYCLE.BIN");
    reveal_strlit("#recycle");
    reveal_strlit("System Volume Information");
    reveal_strlit("lost+found");
    reveal_strlit(".cache");
    reveal_strlit("__pycache__");
    reveal_strlit("__pypackages__");
    reveal_strlit("Caches");
    reveal_strlit("DerivedData");
    reveal_strlit("Backups.backupdb");
    reveal_strlit("__MACOSX");
    reveal_strlit("target");
    reveal_strlit("Pods");
    reveal_strlit("vendor");
    reveal_strlit("#snapshot");
    let d = skip_dir_names();
    assert forall|i: int, j: int| 0 <= i < j < d.len() implies #[trigger] d[i] != #[trigger] d[j] by {
        assert(d[i].len() != d[j].len() || d[i][0] != d[j][0] || d[i][1] != d[j][1]);
    }
}

/// Index of the first `.` at or after `from`, or the length when there is none.
pub open spec fn dot_from(s: Seq<char>, from: int) -> int
    decreases s.len() - from,
{
    if from < 0 || from >= s.len() {
        s.len() as int
    } else if s[from] == '.' {
        from
    } else {
        dot_from(s, from + 1)
    }
}

/// The second dot-separated field of a bundle identifier ("fabfilter" in
/// "com.fabfilter.Pro-Q"); `None` without a dot.
pub open spec fn bundle_domain(id: Seq<char>) -> Option<Seq<char>> {
    let i = dot_from(id, 0);
    if i >= id.len() {
        None
    } else {
        Some(id.subrange(i + 1, dot_from(id, i + 1)))
    }
}

/// The field with its first character upper-cased when that is an ASCII letter.
pub open spec fn capitalized(d: Seq<char>) -> Seq<char> {
    if d.len() > 0 && 'a' <= d[0] <= 'z' {
        d.update(0, ((d[0] as u32) - 32) as char)
    } else {
        d
    }
}

/// Manufacturer and web address a plugin's bundle identifier suggests: the
/// capitalised second field, and `https://www.<field>.com` (lower case) unless
/// the field is "apple" or at most one byte long.
pub open spec fn spec_bundle_manufacturer(id: Seq<char>) -> (Option<Seq<char>>, Option<Seq<char>>) {
    match bundle_domain(id) {
        None => (None, None),
        Some(d) => {
            let lower = unicode_lower(d);
            (
                Some(capitalized(d)),
                if lower != "apple"@ && encode_utf8(lower).len() > 1 {
                    Some("https://www."@ + lower + ".com"@)
                } else {
                    None
                },
            )
        },
    }
}

proof fn lemma_dot_from_range(s: Seq<char>, from: int)
    requires
        0 <= from,
    ensures
        from <= dot_from(s, from) <= s.len() || (from > s.len() && dot_from(s, from) == s.len()),
        dot_from(s, from) < s.len() ==> s[dot_from(s, from)] == '.',
    decreases s.len() - from,
{
    if from < s.len() && s[from] != '.' {
        lemma_dot_from_range(s, from + 1);
    }
}

fn find_dot(cs: &Vec<char>, from: usize) -> (r: usize)
    requires
        from <= cs.len(),
    ensures
        r == dot_from(cs@, from as int),
        from <= r <= cs.len(),
{
    let mut i = from;
    while i < cs.len() && cs[i] != '.'
        invariant
            from <= i <= cs.len(),
            dot_from(cs@, i as int) == dot_from(cs@, from as int),
        decreases cs.len() - i,
    {
        i = i + 1;
    }
    i
}

/// Manufacturer name and web address from a plugin's bundle identifier.
pub fn bundle_manufacturer(bundle_id: &str) -> (r: (Option<String>, Option<String>))
    ensures
        (opt_text(r.0), opt_text(r.1)) == spec_bundle_manufacturer(bundle_id@),
{
    let cs = chars_of(bundle_id);
    let i = find_dot(&cs, 0);
    if i >= cs.len() {
        return (None, None);
    }
    let j = find_dot(&cs, i + 1);
    let mut domain = String::new();
    let mut mfg = String::new();
    let mut k = i + 1;
    while k < j
        invariant
            i + 1 <= k <= j <= cs.len(),
            domain@ == cs@.subrange(i + 1, k as int),
            mfg@ == capitalized(cs@.subrange(i + 1, k as int)),
        decreases j - k,
    {
        let c = cs[k];
        push_char(&mut domain, c);
        if k == i + 1 && 'a' <= c && c <= 'z' {
            let up = ((c as u32 - 32) as u8) as char;
            push_char(&mut mfg, up);
        } else {
            push_char(&mut mfg, c);
        }
        k = k + 1;
        proof {
            let d = cs@.subrange(i + 1, k as int);
            assert(domain@ =~= d);
            assert(mfg@ =~= capitalized(d));
        }
    }
    let lower = lower_case(domain.as_str());
    let url = if !str_eq(lower.as_str(), "apple") && lower.as_str().as_bytes().len() > 1 {
        let mut u = owned("https://www.");
        push_str(&mut u, lower.as_str());
        push_str(&mut u, ".com");
        Some(u)
    } else {
        None
    };
    (Some(mfg), url)
}

// ---------------------------------------------------------------------------
// Delimited export
// ---------------------------------------------------------------------------

/// The header line of a plugin export separated by `sep`.
pub open spec fn dsv_header(sep: char) -> Seq<char> {
    "Name"@ + seq![sep] + "Type"@ + seq![sep] + "Version"@ + seq![sep] + "Manufacturer"@ + seq![sep]
        + "Manufacturer URL"@ + seq![sep] + "Path"@ + seq![sep] + "Size"@ + seq![sep] + "Modified"@ + seq!['\n']
}

/// One field of an export line: escaped for `sep`, then `sep`, or a line end
/// after the last field.
pub open spec fn dsv_cell(field: Seq<char>, sep: char, last: bool) -> Seq<char> {
    spec_dsv_escape(field, sep) + (if last { seq!['\n'] } else { seq![sep] })
}

/// The plugin's web address, empty when it has none.
pub open spec fn url_text(p: PluginInfo) -> Seq<char> {
    match p.manufacturer_url {
        Some(u) => u@,
        None => Seq::empty(),
    }
}

/// One plugin's line: its fields escaped and separated by `sep` (an absent web
/// address as an empty field).
pub open spec fn dsv_row(p: PluginInfo, sep: char) -> Seq<char> {
    dsv_cell(p.name@, sep, false) + dsv_cell(p.plugin_type@, sep, false) + dsv_cell(p.version@, sep, false)
        + dsv_cell(p.manufacturer@, sep, false) + dsv_cell(url_text(p), sep, false) + dsv_cell(p.path@, sep, false)
        + dsv_cell(p.size@, sep, false) + dsv_cell(p.modified@, sep, true)
}

pub open spec fn dsv_rows(ps: Seq<PluginInfo>, sep: char) -> Seq<char>
    decreases ps.len(),
{
    if ps.len() == 0 {
        Seq::empty()
    } else {
        dsv_rows(ps.drop_last(), sep) + dsv_row(ps.last(), sep)
    }
}

/// The whole delimited export: the header, then one line per plugin.
pub open spec fn spec_plugins_dsv(ps: Seq<PluginInfo>, sep: char) -> Seq<char> {
    dsv_header(sep) + dsv_rows(ps, sep)
}

pub(crate) fn push_field(out: &mut String, field: &str, sep: char, last: bool)
    ensures
        final(out)@ == old(out)@ + dsv_cell(field@, sep, last),
{
    let e = dsv_escape(field, sep);
    push_str(out, e.as_str());
    push_char(out, if last { '\n' } else { sep });
}

fn push_row(out: &mut String, p: &PluginInfo, sep: char)
    ensures
        final(out)@ == old(out)@ + dsv_row(*p, sep),
{
    let ghost start = out@;
    let ghost url = url_text(*p);
    push_field(out, p.name.as_str(), sep, false);
    push_field(out, p.plugin_type.as_str(), sep, false);
    push_field(out, p.version.as_str(), sep, false);
    push_field(out, p.manufacturer.as_str(), sep, false);
    let ghost before_url = out@;
    match &p.manufacturer_url {
        Some(u) => push_field(out, u.as_str(), sep, false),
        None => {
            proof {
                reveal_strlit("");
            }
            push_field(out, "", sep, false)
        },
    }
    assert(out@ == before_url + dsv_cell(url, sep, false));
    push_field(out, p.path.as_str(), sep, false);
    push_field(out, p.size.as_str(), sep, false);
    push_field(out, p.modified.as_str(), sep, true);
    proof {
        let c1 = dsv_cell(p.name@, sep, false);
        let c2 = dsv_cell(p.plugin_type@, sep, false);
        let c3 = dsv_cell(p.version@, sep, false);
        let c4 = dsv_cell(p.manufacturer@, sep, false);
        let c5 = dsv_cell(url, sep, false);
        let c6 = dsv_cell(p.path@, sep, false);
        let c7 = dsv_cell(p.size@, sep, false);
        let c8 = dsv_cell(p.modified@, sep, true);
        assert(out@ =~= start + (c1 + c2 + c3 + c4 + c5 + c6 + c7 + c8));
    }
}

pub(crate) fn push_label(out: &mut String, label: &str, sep: char, last: bool)
    ensures
        final(out)@ == old(out)@ + label@ + (if last { seq!['\n'] } else { seq![sep] }),
{
    push_str(out, label);
    push_char(out, if last { '\n' } else { sep });
}

/// The text of a plugin export separated by `sep`: a header line, then one line
/// per plugin with every field escaped for `sep`.
pub fn plugins_dsv(plugins: &[PluginInfo], sep: char) -> (r: String)
    ensures
        r@ == spec_plugins_dsv(plugins@, sep),
{
    let mut out = String::new();
    push_label(&mut out, "Name", sep, false);
    push_label(&mut out, "Type", sep, false);
    push_label(&mut out, "Version", sep, false);
    push_label(&mut out, "Manufacturer", sep, false);
    push_label(&mut out, "Manufacturer URL", sep, false);
    push_label(&mut out, "Path", sep, false);
    push_label(&mut out, "Size", sep, false);
    push_label(&mut out, "Modified", sep, true);
    assert(out@ =~= dsv_header(sep));
    let mut i: usize = 0;
    while i < plugins.len()
        invariant
            i <= plugins.len(),
            out@ == dsv_header(sep) + dsv_rows(plugins@.take(i as int), sep),
        decreases plugins.len() - i,
    {
        push_row(&mut out, &plugins[i], sep);
        proof {
            assert(plugins@.take(i + 1).drop_last() =~= plugins@.take(i as int));
            assert(plugins@.take(i + 1).last() == plugins@[i as int]);
        }
        i = i + 1;
        assert(out@ =~= dsv_header(sep) + dsv_rows(plugins@.take(i as int), sep));
    }
    assert(plugins@.take(i as int) =~= plugins@);
    out
}

} // verus!
