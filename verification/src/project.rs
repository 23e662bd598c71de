//! DAW project files: which reader a project's extension calls for, and what
//! is read from a binary project — its printable strings, the metadata pairs
//! among them, the plugin paths it names, and how many plugin states it holds.
use vstd::prelude::*;
use crate::text::{push_char, str_eq};
use crate::walk::strings_view;

verus! {

/// A printable ASCII byte (space to tilde).
pub open spec fn printable(b: u8) -> bool {
    0x20 <= b <= 0x7E
}

/// Bytes read as ASCII text.
pub open spec fn ascii_text(bytes: Seq<u8>) -> Seq<char> {
    bytes.map_values(|b: u8| b as char)
}

/// The text of `data[start..end]`.
fn ascii_string(data: &[u8], start: usize, end: usize) -> (r: String)
    requires
        start <= end <= data@.len(),
    ensures
        r@ == ascii_text(data@.subrange(start as int, end as int)),
{
    let mut out = String::new();
    let mut k: usize = start;
    while k < end
        invariant
            start <= k <= end <= data@.len(),
            out@ == ascii_text(data@.subrange(start as int, k as int)),
        decreases end - k,
    {
        let c = data[k] as char;
        push_char(&mut out, c);
        proof {
            assert(ascii_text(data@.subrange(start as int, k + 1)) =~= ascii_text(
                data@.subrange(start as int, k as int),
            ).push(data@[k as int] as char));
        }
        k = k + 1;
    }
    out
}

/// The end of the run of printable bytes that starts at `i`.
pub open spec fn run_end(d: Seq<u8>, i: int) -> int
    decreases d.len() - i,
{
    if i < 0 || i >= d.len() || !printable(d[i]) {
        i
    } else {
        run_end(d, i + 1)
    }
}

pub proof fn lemma_run_end(d: Seq<u8>, i: int)
    requires
        0 <= i <= d.len(),
    ensures
        i <= run_end(d, i) <= d.len(),
        run_end(d, i) == d.len() || !printable(d[run_end(d, i)]),
        forall|k: int| i <= k < run_end(d, i) ==> printable(#[trigger] d[k]),
    decreases d.len() - i,
{
    if i < d.len() && printable(d[i]) {
        lemma_run_end(d, i + 1);
    }
}

/// The printable strings of a binary project's header: runs of at least three
/// printable bytes, taken while a run starts within the first 10,000 bytes and
/// more than four bytes before the end.
pub open spec fn strings_from(d: Seq<u8>, i: int) -> Seq<Seq<char>>
    decreases d.len() - i,
{
    if i < 0 || !(i + 4 < d.len() && i < 10000) {
        Seq::empty()
    } else if printable(d[i]) {
        proof {
            lemma_run_end(d, i + 1);
        }
        let e = run_end(d, i);
        (if e - i >= 3 { seq![ascii_text(d.subrange(i, e))] } else { Seq::empty() }) + strings_from(d, e)
    } else {
        strings_from(d, i + 1)
    }
}

/// The printable strings at the head of a binary project file.
pub fn printable_strings(data: &[u8]) -> (r: Vec<String>)
    ensures
        strings_view(r@) == strings_from(data@, 0),
{
    let mut out: Vec<String> = Vec::new();
    let mut i: usize = 0;
    while i < 10000 && i + 4 < data.len()
        invariant
            i <= data@.len(),
            strings_view(out@) + strings_from(data@, i as int) == strings_from(data@, 0),
        decreases data.len() - i,
    {
        if 0x20 <= data[i] && data[i] <= 0x7E {
            let start = i;
            proof {
                lemma_run_end(data@, start as int + 1);
            }
            while i < data.len() && 0x20 <= data[i] && data[i] <= 0x7E
                invariant
                    start <= i <= data@.len(),
                    start < data@.len(),
                    printable(data@[start as int]),
                    run_end(data@, start as int) == run_end(data@, i as int),
                decreases data.len() - i,
            {
                i = i + 1;
            }
            proof {
                lemma_run_end(data@, i as int);
            }
            let ghost before = out@;
            if i - start >= 3 {
                out.push(ascii_string(data, start, i));
            }
            proof {
                assert(strings_view(out@) =~= strings_view(before) + (if i - start >= 3 {
                    seq![ascii_text(data@.subrange(start as int, i as int))]
                } else {
                    Seq::empty()
                }));
            }
        } else {
            i = i + 1;
        }
    }
    assert(strings_view(out@) =~= strings_from(data@, 0));
    out
}

/// The metadata keys a binary project may spell out, each followed by its value.
pub open spec fn meta_key_names() -> Seq<Seq<char>> {
    seq![
        "album"@, "application_version_name"@, "artist"@, "branch"@, "comment"@, "copyright"@, "creator"@,
        "genre"@, "orig_artist"@, "producer"@, "title"@, "version"@,
    ]
}

/// Key and value pairs among the strings from `idx` on: a metadata key followed
/// by a non-empty string that is no key is a pair, and both are consumed.
pub open spec fn pairs_from(strs: Seq<Seq<char>>, idx: int) -> Seq<(Seq<char>, Seq<char>)>
    decreases strs.len() - idx,
{
    if idx < 0 || idx + 1 >= strs.len() {
        Seq::empty()
    } else if meta_key_names().contains(strs[idx]) && strs[idx + 1].len() > 0 && !meta_key_names().contains(
        strs[idx + 1],
    ) {
        seq![(strs[idx], strs[idx + 1])] + pairs_from(strs, idx + 2)
    } else {
        pairs_from(strs, idx + 1)
    }
}

pub open spec fn pairs_view(v: Seq<(String, String)>) -> Seq<(Seq<char>, Seq<char>)> {
    v.map_values(|p: (String, String)| (p.0@, p.1@))
}

fn is_meta_key(s: &str) -> (r: bool)
    ensures
        r == meta_key_names().contains(s@),
{
    let keys: Vec<&'static str> = vec![
        "album",
        "application_version_name",
        "artist",
        "branch",
        "comment",
        "copyright",
        "creator",
        "genre",
        "orig_artist",
        "producer",
        "title",
        "version",
    ];
    assert(crate::scanner::views(keys@) =~= meta_key_names());
    let mut i: usize = 0;
    while i < keys.len()
        invariant
            i <= keys.len(),
            crate::scanner::views(keys@) == meta_key_names(),
            forall|k: int| 0 <= k < i ==> meta_key_names()[k] != s@,
        decreases keys.len() - i,
    {
        if str_eq(keys[i], s) {
            assert(meta_key_names()[i as int] == s@);
            return true;
        }
        i = i + 1;
    }
    assert(!meta_key_names().contains(s@)) by {
        if meta_key_names().contains(s@) {
            let k = choose|k: int| 0 <= k < meta_key_names().len() && meta_key_names()[k] == s@;
            assert(meta_key_names()[k] != s@);
        }
    }
    false
}

/// The metadata pairs spelled out among a binary project's strings, in order.
pub fn metadata_pairs(strs: &Vec<String>) -> (r: Vec<(String, String)>)
    ensures
        pairs_view(r@) == pairs_from(strings_view(strs@), 0),
{
    let ghost sv = strings_view(strs@);
    let mut out: Vec<(String, String)> = Vec::new();
    let mut idx: usize = 0;
    while idx < strs.len() && idx + 1 < strs.len()
        invariant
            idx <= strs.len(),
            sv == strings_view(strs@),
            pairs_view(out@) + pairs_from(sv, idx as int) == pairs_from(sv, 0),
        decreases strs.len() - idx,
    {
        let key = strs[idx].as_str();
        let val = strs[idx + 1].as_str();
        assert(sv[idx as int] == key@ && sv[idx + 1] == val@);
        if is_meta_key(key) && !val.is_empty() && !is_meta_key(val) {
            let ghost before = out@;
            out.push((strs[idx].clone(), strs[idx + 1].clone()));
            assert(pairs_view(out@) =~= pairs_view(before) + seq![(sv[idx as int], sv[idx + 1])]);
            idx = idx + 2;
        } else {
            idx = idx + 1;
        }
    }
    assert(pairs_view(out@) =~= pairs_from(sv, 0));
    out
}

/// `a` sorts before `b`: character by character, a prefix first.
pub open spec fn text_less(a: Seq<char>, b: Seq<char>) -> bool
    decreases a.len(),
{
    if a.len() == 0 {
        b.len() > 0
    } else if b.len() == 0 {
        false
    } else if a[0] != b[0] {
        (a[0] as int) < (b[0] as int)
    } else {
        text_less(a.drop_first(), b.drop_first())
    }
}

pub proof fn lemma_text_less_irreflexive(a: Seq<char>)
    ensures
        !text_less(a, a),
    decreases a.len(),
{
    if a.len() > 0 {
        lemma_text_less_irreflexive(a.drop_first());
    }
}

pub proof fn lemma_text_less_transitive(a: Seq<char>, b: Seq<char>, c: Seq<char>)
    requires
        text_less(a, b),
        text_less(b, c),
    ensures
        text_less(a, c),
    decreases a.len(),
{
    if a.len() > 0 && b.len() > 0 && c.len() > 0 && a[0] == b[0] && b[0] == c[0] {
        lemma_text_less_transitive(a.drop_first(), b.drop_first(), c.drop_first());
    }
}

pub proof fn lemma_text_less_total(a: Seq<char>, b: Seq<char>)
    requires
        a != b,
    ensures
        text_less(a, b) || text_less(b, a),
    decreases a.len(),
{
    if a.len() > 0 && b.len() > 0 && a[0] == b[0] {
        if a.drop_first() == b.drop_first() {
            assert(a =~= seq![a[0]] + a.drop_first());
            assert(b =~= seq![b[0]] + b.drop_first());
        }
        lemma_text_less_total(a.drop_first(), b.drop_first());
    } else if a.len() > 0 && b.len() > 0 {
        assert((a[0] as int) != (b[0] as int));
    } else if a.len() == 0 && b.len() == 0 {
        assert(a =~= b);
    }
}

/// Every string sorts before each later one: sorted, and no string twice.
pub open spec fn strictly_sorted(v: Seq<Seq<char>>) -> bool {
    forall|i: int, j: int| 0 <= i < j < v.len() ==> text_less(#[trigger] v[i], #[trigger] v[j])
}

pub(crate) fn less_text(a: &str, b: &str) -> (r: bool)
    ensures
        r == text_less(a@, b@),
{
    let x = crate::text::chars_of(a);
    let y = crate::text::chars_of(b);
    assert(x@.skip(0) =~= x@);
    assert(y@.skip(0) =~= y@);
    let mut i: usize = 0;
    while i < x.len() && i < y.len()
        invariant
            i <= x@.len(),
            i <= y@.len(),
            x@ == a@,
            y@ == b@,
            text_less(a@, b@) == text_less(x@.skip(i as int), y@.skip(i as int)),
        decreases x.len() - i,
    {
        assert(x@.skip(i as int)[0] == x@[i as int]);
        assert(y@.skip(i as int)[0] == y@[i as int]);
        if x[i] != y[i] {
            return x[i] < y[i];
        }
        assert(x@.skip(i as int).drop_first() =~= x@.skip(i + 1));
        assert(y@.skip(i as int).drop_first() =~= y@.skip(i + 1));
        i = i + 1;
    }
    i == x.len() && i < y.len()
}

/// Adds `s` to a strictly sorted list unless it is there already.
fn insert_sorted(v: &mut Vec<String>, s: String)
    requires
        strictly_sorted(strings_view(old(v)@)),
    ensures
        strictly_sorted(strings_view(final(v)@)),
        strings_view(final(v)@).to_set() == strings_view(old(v)@).to_set().insert(s@),
{
    let ghost old_view = strings_view(v@);
    let mut i: usize = 0;
    while i < v.len() && less_text(v[i].as_str(), s.as_str())
        invariant
            i <= v.len(),
            strings_view(v@) == old_view,
            forall|k: int| 0 <= k < i ==> text_less(#[trigger] old_view[k], s@),
        decreases v.len() - i,
    {
        i = i + 1;
    }
    if i < v.len() && str_eq(v[i].as_str(), s.as_str()) {
        assert(old_view.to_set().insert(s@) =~= old_view.to_set()) by {
            assert(old_view[i as int] == s@);
        }
        return;
    }
    proof {
        if i < v.len() {
            assert(old_view[i as int] != s@);
            assert(!text_less(old_view[i as int], s@));
            lemma_text_less_total(old_view[i as int], s@);
        }
    }
    v.insert(i, s);
    proof {
        let nv = strings_view(v@);
        assert(nv =~= old_view.insert(i as int, s@));
        assert forall|a: int, b: int| 0 <= a < b < nv.len() implies text_less(#[trigger] nv[a], #[trigger] nv[b]) by {
            if b < i {
            } else if a < i && b == i {
            } else if a < i && b > i {
                assert(text_less(s@, old_view[i as int]));
                if b - 1 > i {
                    lemma_text_less_transitive(s@, old_view[i as int], old_view[b - 1]);
                }
                lemma_text_less_transitive(old_view[a], s@, old_view[b - 1]);
            } else if a == i {
                assert(text_less(s@, old_view[i as int]));
                if b - 1 > i {
                    lemma_text_less_transitive(s@, old_view[i as int], old_view[b - 1]);
                }
            } else {
            }
        }
        assert(nv.to_set() =~= old_view.to_set().insert(s@)) by {
            assert forall|t: Seq<char>| nv.to_set().contains(t) implies old_view.to_set().insert(s@).contains(t) by {
                let k = choose|k: int| 0 <= k < nv.len() && nv[k] == t;
                if k < i {
                    assert(old_view[k] == t);
                } else if k > i {
                    assert(old_view[k - 1] == t);
                }
            }
            assert forall|t: Seq<char>| old_view.to_set().insert(s@).contains(t) implies nv.to_set().contains(t) by {
                if t == s@ {
                    assert(nv[i as int] == t);
                } else {
                    let k = choose|k: int| 0 <= k < old_view.len() && old_view[k] == t;
                    if k < i {
                        assert(nv[k] == t);
                    } else {
                        assert(nv[k + 1] == t);
                    }
                }
            }
        }
    }
}

pub open spec fn ends_with_text(s: Seq<char>, suffix: Seq<char>) -> bool {
    s.len() >= suffix.len() && s.subrange(s.len() - suffix.len(), s.len() as int) == suffix
}

/// A string that ends like a plugin file: `.dll`, `.vst3`, `.component`,
/// `.clap` or `.aaxplugin`.
pub open spec fn names_plugin(s: Seq<char>) -> bool {
    ends_with_text(s, ".dll"@) || ends_with_text(s, ".vst3"@) || ends_with_text(s, ".component"@)
        || ends_with_text(s, ".clap"@) || ends_with_text(s, ".aaxplugin"@)
}

/// The plugin paths among the runs of printable bytes from `i` on, the current
/// run having started at `start`: a run of at least six bytes that a
/// non-printable byte ends and that names a plugin file (a run the file ends
/// with is not counted).
pub open spec fn runs_from(d: Seq<u8>, start: int, i: int) -> Seq<Seq<char>>
    decreases d.len() - i,
{
    if i < 0 || i >= d.len() {
        Seq::empty()
    } else if printable(d[i]) {
        runs_from(d, start, i + 1)
    } else {
        let s = ascii_text(d.subrange(start, i));
        (if i - start >= 6 && names_plugin(s) { seq![s] } else { Seq::empty() }) + runs_from(d, i + 1, i + 1)
    }
}

pub(crate) fn ends_with_chars(s: &Vec<char>, suffix: &str) -> (r: bool)
    ensures
        r == ends_with_text(s@, suffix@),
{
    let t = crate::text::chars_of(suffix);
    if t.len() > s.len() {
        return false;
    }
    let off = s.len() - t.len();
    let mut k: usize = 0;
    while k < t.len()
        invariant
            k <= t.len(),
            off + t.len() == s.len(),
            t@ == suffix@,
            forall|j: int| 0 <= j < k ==> s@[off + j] == t@[j],
        decreases t.len() - k,
    {
        if s[off + k] != t[k] {
            assert(s@.subrange(off as int, s@.len() as int)[k as int] != suffix@[k as int]);
            return false;
        }
        k = k + 1;
    }
    assert(s@.subrange(off as int, s@.len() as int) =~= suffix@);
    true
}

proof fn lemma_prepend_to_set(x: Seq<char>, rest: Seq<Seq<char>>)
    ensures
        (seq![x] + rest).to_set() == rest.to_set().insert(x),
{
    let whole = seq![x] + rest;
    assert forall|t: Seq<char>| whole.to_set().contains(t) implies rest.to_set().insert(x).contains(t) by {
        let k = choose|k: int| 0 <= k < whole.len() && whole[k] == t;
        if k > 0 {
            assert(rest[k - 1] == t);
        }
    }
    assert forall|t: Seq<char>| rest.to_set().insert(x).contains(t) implies whole.to_set().contains(t) by {
        if t == x {
            assert(whole[0] == t);
        } else {
            let k = choose|k: int| 0 <= k < rest.len() && rest[k] == t;
            assert(whole[k + 1] == t);
        }
    }
    assert(whole.to_set() =~= rest.to_set().insert(x));
}

/// The plugin files a binary project names, sorted, each once.
pub fn plugin_paths(data: &[u8]) -> (r: Vec<String>)
    ensures
        strictly_sorted(strings_view(r@)),
        strings_view(r@).to_set() == runs_from(data@, 0, 0).to_set(),
{
    let mut out: Vec<String> = Vec::new();
    let mut current: Vec<char> = Vec::new();
    let mut start: usize = 0;
    let mut i: usize = 0;
    while i < data.len()
        invariant
            start <= i <= data@.len(),
            current@ == ascii_text(data@.subrange(start as int, i as int)),
            strictly_sorted(strings_view(out@)),
            strings_view(out@).to_set() + runs_from(data@, start as int, i as int).to_set() == runs_from(
                data@,
                0,
                0,
            ).to_set(),
        decreases data.len() - i,
    {
        let b = data[i];
        if 0x20 <= b && b <= 0x7E {
            current.push(b as char);
            proof {
                assert(ascii_text(data@.subrange(start as int, i + 1)) =~= ascii_text(
                    data@.subrange(start as int, i as int),
                ).push(b as char));
            }
        } else {
            let ghost run = current@;
            let ghost before = strings_view(out@).to_set();
            if current.len() >= 6 && (ends_with_chars(&current, ".dll") || ends_with_chars(&current, ".vst3")
                || ends_with_chars(&current, ".component") || ends_with_chars(&current, ".clap") || ends_with_chars(
                &current,
                ".aaxplugin",
            )) {
                let text = crate::midi_gen::string_of(&current);
                insert_sorted(&mut out, text);
                proof {
                    lemma_prepend_to_set(run, runs_from(data@, i + 1, i + 1));
                }
            } else {
                proof {
                    assert(Seq::<Seq<char>>::empty() + runs_from(data@, i + 1, i + 1) =~= runs_from(data@, i + 1, i + 1));
                }
            }
            current = Vec::new();
            start = i + 1;
            proof {
                assert(data@.subrange(start as int, start as int) =~= Seq::<u8>::empty());
                assert(ascii_text(Seq::<u8>::empty()) =~= Seq::<char>::empty());
            }
        }
        i = i + 1;
    }
    proof {
        assert(runs_from(data@, start as int, i as int).to_set() =~= Set::empty());
        assert(strings_view(out@).to_set() + Set::empty() =~= strings_view(out@).to_set());
    }
    out
}

/// How many times `.fxb` (a stored plugin bank) occurs in `d` from `i` on.
pub open spec fn fxb_count_from(d: Seq<u8>, i: int) -> nat
    decreases d.len() - i,
{
    if i < 0 || i + 4 > d.len() {
        0
    } else {
        (if d[i] == 46 && d[i + 1] == 102 && d[i + 2] == 120 && d[i + 3] == 98 { 1nat } else { 0nat })
            + fxb_count_from(d, i + 1)
    }
}

/// What is read from a binary DAW project: the metadata pairs spelled out in
/// its header, the plugin files it names (sorted, each once), and how many
/// plugin banks it stores.
#[derive(Debug)]
pub struct BinaryProject {
    pub metadata: Vec<(String, String)>,
    pub plugins: Vec<String>,
    pub plugin_state_count: usize,
}

/// Reads the metadata, the plugin files and the stored plugin banks of a binary
/// DAW project from its bytes.
pub fn binary_project_summary(data: &[u8]) -> (r: BinaryProject)
    ensures
        pairs_view(r.metadata@) == pairs_from(strings_from(data@, 0), 0),
        strictly_sorted(strings_view(r.plugins@)),
        strings_view(r.plugins@).to_set() == runs_from(data@, 0, 0).to_set(),
        r.plugin_state_count == fxb_count_from(data@, 0),
{
    let strings = printable_strings(data);
    let metadata = metadata_pairs(&strings);
    let plugins = plugin_paths(data);
    let mut count: usize = 0;
    let mut i: usize = 0;
    while data.len() >= 4 && i <= data.len() - 4
        invariant
            i <= data@.len(),
            count + fxb_count_from(data@, i as int) == fxb_count_from(data@, 0),
            count <= i,
        decreases data.len() - i,
    {
        if data[i] == 46 && data[i + 1] == 102 && data[i + 2] == 120 && data[i + 3] == 98 {
            count = count + 1;
        }
        i = i + 1;
    }
    BinaryProject { metadata, plugins, plugin_state_count: count }
}

/// The display name of a binary project format, by extension (lower case,
/// without the dot).
pub open spec fn spec_binary_format_name(ext: Seq<char>) -> Seq<char> {
    if ext == "bwproject"@ {
        "Bitwig Studio Project (.bwproject)"@
    } else if ext == "flp"@ {
        "FL Studio Project (.flp)"@
    } else if ext == "logicx"@ {
        "Logic Pro Project (.logicx)"@
    } else if ext == "cpr"@ {
        "Cubase Project (.cpr)"@
    } else if ext == "npr"@ {
        "Nuendo Project (.npr)"@
    } else if ext == "ptx"@ {
        "Pro Tools Session (.ptx)"@
    } else if ext == "ptf"@ {
        "Pro Tools Session (.ptf)"@
    } else if ext == "reason"@ {
        "Reason Song (.reason)"@
    } else if ext == "band"@ {
        "GarageBand Project (.band)"@
    } else {
        "Binary DAW Project"@
    }
}

/// The display name of a binary project format, such as "Cubase Project (.cpr)".
pub fn binary_format_name(ext: &str) -> (r: &'static str)
    ensures
        r@ == spec_binary_format_name(ext@),
{
    if str_eq(ext, "bwproject") {
        "Bitwig Studio Project (.bwproject)"
    } else if str_eq(ext, "flp") {
        "FL Studio Project (.flp)"
    } else if str_eq(ext, "logicx") {
        "Logic Pro Project (.logicx)"
    } else if str_eq(ext, "cpr") {
        "Cubase Project (.cpr)"
    } else if str_eq(ext, "npr") {
        "Nuendo Project (.npr)"
    } else if str_eq(ext, "ptx") {
        "Pro Tools Session (.ptx)"
    } else if str_eq(ext, "ptf") {
        "Pro Tools Session (.ptf)"
    } else if str_eq(ext, "reason") {
        "Reason Song (.reason)"
    } else if str_eq(ext, "band") {
        "GarageBand Project (.band)"
    } else {
        "Binary DAW Project"
    }
}

/// How a project file is read, by its extension.
#[derive(Debug)]
pub enum ProjectReader {
    /// A gzip-compressed XML file (Ableton Live Set).
    GzipXml { format: &'static str },
    /// XML inside a ZIP archive: the first non-empty of `members`, else the
    /// archive's first `.xml` entry.
    ZipXml { format: &'static str, members: Vec<&'static str> },
    /// A plain text file.
    Text { format: &'static str },
    /// Any other file: read as a binary project.
    Binary { format: &'static str },
}

pub open spec fn reader_view(r: ProjectReader) -> (int, Seq<char>, Seq<Seq<char>>) {
    match r {
        ProjectReader::GzipXml { format } => (0, format@, Seq::empty()),
        ProjectReader::ZipXml { format, members } => (1, format@, crate::scanner::views(members@)),
        ProjectReader::Text { format } => (2, format@, Seq::empty()),
        ProjectReader::Binary { format } => (3, format@, Seq::empty()),
    }
}

/// The reader for a project extension (lower case, without the dot): Ableton
/// sets are gzip XML, Studio One songs and DAWproject files zipped XML, REAPER
/// projects text, and everything else a binary project.
pub open spec fn spec_project_reader(ext: Seq<char>) -> (int, Seq<char>, Seq<Seq<char>>) {
    if ext == "als"@ {
        (0, "Ableton Live Set"@, Seq::empty())
    } else if ext == "song"@ {
        (1, "Studio One Song"@, seq!["song.xml"@, "Song/song.xml"@, "metainfo.xml"@])
    } else if ext == "dawproject"@ {
        (1, "DAWproject"@, seq!["project.xml"@, "metadata.xml"@])
    } else if ext == "rpp"@ || ext == "rpp-bak"@ {
        (2, "REAPER Project"@, Seq::empty())
    } else {
        (3, spec_binary_format_name(ext), Seq::empty())
    }
}

/// How to read a project file with this extension (lower case, without the dot).
pub fn project_reader(ext: &str) -> (r: ProjectReader)
    ensures
        reader_view(r) == spec_project_reader(ext@),
{
    if str_eq(ext, "als") {
        ProjectReader::GzipXml { format: "Ableton Live Set" }
    } else if str_eq(ext, "song") {
        let members: Vec<&'static str> = vec!["song.xml", "Song/song.xml", "metainfo.xml"];
        assert(crate::scanner::views(members@) =~= seq!["song.xml"@, "Song/song.xml"@, "metainfo.xml"@]);
        ProjectReader::ZipXml { format: "Studio One Song", members }
    } else if str_eq(ext, "dawproject") {
        let members: Vec<&'static str> = vec!["project.xml", "metadata.xml"];
        assert(crate::scanner::views(members@) =~= seq!["project.xml"@, "metadata.xml"@]);
        ProjectReader::ZipXml { format: "DAWproject", members }
    } else if str_eq(ext, "rpp") || str_eq(ext, "rpp-bak") {
        ProjectReader::Text { format: "REAPER Project" }
    } else {
        ProjectReader::Binary { format: binary_format_name(ext) }
    }
}

} // verus!
