//! What a plugin bundle tells about itself: the CPU architectures named in the
//! header of its binary (Mach-O, universal or PE), the version, vendor and web
//! address in a VST3 `moduleinfo.json`, and the record assembled for a plugin.
use vstd::prelude::*;
use crate::format::spec_format_size;
use crate::midi::be32;
use crate::scanner::{bundle_manufacturer, format_size, get_plugin_type, opt_text, plugin_type_of, spec_bundle_manufacturer, PluginInfo};
use crate::text::{decimal, owned, push_decimal, str_eq};
use crate::walk::strings_view;

verus! {

pub open spec fn le16(b: Seq<u8>, i: int) -> int {
    b[i] + b[i + 1] * 256
}

pub open spec fn le32(b: Seq<u8>, i: int) -> int {
    b[i] + b[i + 1] * 256 + b[i + 2] * 65536 + b[i + 3] * 16777216
}

/// CPU type codes of Mach-O headers.
pub const CPU_ARM64: u32 = 0x0100000C;
pub const CPU_X86_64: u32 = 0x01000007;
pub const CPU_I386: u32 = 7;

/// The label of a CPU in a universal binary's architecture list.
pub open spec fn fat_label(cpu: int) -> Seq<char> {
    if cpu == CPU_ARM64 {
        "ARM64"@
    } else if cpu == CPU_X86_64 {
        "x86_64"@
    } else if cpu == CPU_I386 {
        "i386"@
    } else {
        "cpu:"@ + decimal(cpu as nat)
    }
}

/// The label of the CPU of a 64-bit Mach-O binary.
pub open spec fn thin64_label(cpu: int) -> Seq<char> {
    if cpu == CPU_ARM64 {
        "ARM64"@
    } else if cpu == CPU_X86_64 {
        "x86_64"@
    } else {
        "cpu:"@ + decimal(cpu as nat)
    }
}

/// The label of the CPU of a 32-bit Mach-O binary.
pub open spec fn thin32_label(cpu: int) -> Seq<char> {
    if cpu == CPU_I386 {
        "i386"@
    } else {
        "cpu:"@ + decimal(cpu as nat)
    }
}

/// The label of the machine of a PE (Windows) binary.
pub open spec fn pe_label(machine: int) -> Seq<char> {
    if machine == 0x8664 {
        "x86_64"@
    } else if machine == 0x014c {
        "i386"@
    } else if machine == 0xAA64 {
        "ARM64"@
    } else {
        "pe:"@ + decimal(machine as nat)
    }
}

/// A universal binary: big- or little-endian fat magic.
pub open spec fn is_fat(b: Seq<u8>) -> bool {
    be32(b, 0) == 0xCAFEBABE || be32(b, 0) == 0xBEBAFECA
}

/// A 32-bit field of a universal header, in the header's byte order.
pub open spec fn fat_word(b: Seq<u8>, i: int) -> int {
    if be32(b, 0) == 0xCAFEBABE { be32(b, i) } else { le32(b, i) }
}

/// How many architecture entries of a universal header are read: those it
/// announces, at most ten, and only while an entry's CPU field lies within the
/// bytes read.
pub open spec fn fat_count(b: Seq<u8>) -> nat {
    let announced = fat_word(b, 4);
    let fit: int = if b.len() >= 12 { (b.len() - 12) / 20 + 1 } else { 0 };
    let m = if announced < 10 { announced } else { 10 };
    (if m < fit { m } else { fit }) as nat
}

/// The architectures named by the first bytes of a plugin binary.
pub open spec fn spec_architectures(b: Seq<u8>) -> Seq<Seq<char>> {
    if b.len() < 8 {
        Seq::empty()
    } else if is_fat(b) {
        Seq::new(fat_count(b), |i: int| fat_label(fat_word(b, 8 + 20 * i)))
    } else if le32(b, 0) == 0xFEEDFACF {
        seq![thin64_label(le32(b, 4))]
    } else if le32(b, 0) == 0xFEEDFACE {
        seq![thin32_label(le32(b, 4))]
    } else if b[0] == 77 && b[1] == 90 && b.len() >= 64 {
        let pe = le32(b, 60);
        if pe + 6 <= b.len() && b[pe] == 80 && b[pe + 1] == 69 {
            seq![pe_label(le16(b, pe + 4))]
        } else {
            Seq::empty()
        }
    } else {
        Seq::empty()
    }
}

fn be32_at(b: &[u8], i: usize) -> (r: u64)
    requires
        i + 4 <= b@.len(),
    ensures
        r == be32(b@, i as int),
{
    b[i] as u64 * 16777216 + b[i + 1] as u64 * 65536 + b[i + 2] as u64 * 256 + b[i + 3] as u64
}

fn le32_at(b: &[u8], i: usize) -> (r: u64)
    requires
        i + 4 <= b@.len(),
    ensures
        r == le32(b@, i as int),
{
    b[i] as u64 + b[i + 1] as u64 * 256 + b[i + 2] as u64 * 65536 + b[i + 3] as u64 * 16777216
}

fn labelled(prefix: &str, n: u64) -> (r: String)
    ensures
        r@ == prefix@ + decimal(n as nat),
{
    let mut out = owned(prefix);
    push_decimal(&mut out, n);
    out
}

fn fat_label_of(cpu: u64) -> (r: String)
    ensures
        r@ == fat_label(cpu as int),
{
    proof {
        reveal_strlit("ARM64");
        reveal_strlit("x86_64");
        reveal_strlit("i386");
    }
    if cpu == 0x0100000C {
        owned("ARM64")
    } else if cpu == 0x01000007 {
        owned("x86_64")
    } else if cpu == 7 {
        owned("i386")
    } else {
        labelled("cpu:", cpu)
    }
}

/// The CPU architectures named by the first bytes of a plugin binary (up to
/// 4 KiB as read): the entries of a universal binary, the CPU of a 64- or
/// 32-bit Mach-O binary, or the machine of a PE binary; none for anything else.
pub fn architectures_of(head: &[u8]) -> (r: Vec<String>)
    ensures
        strings_view(r@) == spec_architectures(head@),
{
    let n = head.len();
    let mut archs: Vec<String> = Vec::new();
    if n < 8 {
        assert(strings_view(archs@) =~= spec_architectures(head@));
        return archs;
    }
    let magic = be32_at(head, 0);
    if magic == 0xCAFEBABE || magic == 0xBEBAFECA {
        let is_be = magic == 0xCAFEBABE;
        let announced: u64 = if is_be { be32_at(head, 4) } else { le32_at(head, 4) };
        let ghost count = fat_count(head@);
        let mut i: usize = 0;
        while (i as u64) < announced && i < 10
            invariant
                n == head@.len(),
                n >= 8,
                is_fat(head@),
                is_be == (be32(head@, 0) == 0xCAFEBABE),
                announced == fat_word(head@, 4),
                count == fat_count(head@),
                i <= count,
                archs@.len() == i,
                forall|j: int| 0 <= j < i ==> (#[trigger] archs@[j])@ == fat_label(fat_word(head@, 8 + 20 * j)),
            ensures
                i == count,
                archs@.len() == i,
                forall|j: int| 0 <= j < i ==> (#[trigger] archs@[j])@ == fat_label(fat_word(head@, 8 + 20 * j)),
            decreases 10 - i,
        {
            let off = 8 + i * 20;
            if off + 4 > n {
                break;
            }
            let cpu = if is_be { be32_at(head, off) } else { le32_at(head, off) };
            archs.push(fat_label_of(cpu));
            i = i + 1;
        }
        assert(strings_view(archs@) =~= spec_architectures(head@));
        return archs;
    }
    let mh = le32_at(head, 0);
    proof {
        reveal_strlit("ARM64");
        reveal_strlit("x86_64");
        reveal_strlit("i386");
    }
    if mh == 0xFEEDFACF {
        let cpu = le32_at(head, 4);
        let label = if cpu == 0x0100000C {
            owned("ARM64")
        } else if cpu == 0x01000007 {
            owned("x86_64")
        } else {
            labelled("cpu:", cpu)
        };
        archs.push(label);
        assert(strings_view(archs@) =~= spec_architectures(head@));
        return archs;
    }
    if mh == 0xFEEDFACE {
        let cpu = le32_at(head, 4);
        let label = if cpu == 7 {
            owned("i386")
        } else {
            labelled("cpu:", cpu)
        };
        archs.push(label);
        assert(strings_view(archs@) =~= spec_architectures(head@));
        return archs;
    }
    if head[0] == 77 && head[1] == 90 && n >= 64 {
        let pe = le32_at(head, 60);
        if pe + 6 <= n as u64 && head[pe as usize] == 80 && head[pe as usize + 1] == 69 {
            let p = pe as usize;
            let machine: u64 = head[p + 4] as u64 + head[p + 5] as u64 * 256;
            let label = if machine == 0x8664 {
                owned("x86_64")
            } else if machine == 0x014c {
                owned("i386")
            } else if machine == 0xAA64 {
                owned("ARM64")
            } else {
                labelled("pe:", machine)
            };
            archs.push(label);
        }
    }
    assert(strings_view(archs@) =~= spec_architectures(head@));
    archs
}

/// Bundle extensions of plugins: VST2, VST3, Audio Unit, CLAP, and Windows VST2.
pub open spec fn plugin_extension_names() -> Seq<Seq<char>> {
    seq![".vst"@, ".vst3"@, ".component"@, ".clap"@, ".dll"@]
}

/// A directory entry with extension key `ext` is a plugin: a plugin extension,
/// and for CLAP a bundle directory rather than a stray file.
pub open spec fn spec_plugin_candidate(ext: Seq<char>, is_dir: bool) -> bool {
    plugin_extension_names().contains(ext) && !(ext == ".clap"@ && !is_dir)
}

/// Whether a directory entry with extension key `ext` is a plugin.
pub fn plugin_candidate(ext: &str, is_dir: bool) -> (r: bool)
    ensures
        r == spec_plugin_candidate(ext@, is_dir),
{
    proof {
        reveal_strlit(".vst");
        reveal_strlit(".vst3");
        reveal_strlit(".component");
        reveal_strlit(".clap");
        reveal_strlit(".dll");
    }
    let clap = str_eq(ext, ".clap");
    let known = str_eq(ext, ".vst") || str_eq(ext, ".vst3") || str_eq(ext, ".component") || clap || str_eq(ext, ".dll");
    proof {
        if plugin_extension_names().contains(ext@) {
            let k = choose|k: int| 0 <= k < 5 && plugin_extension_names()[k] == ext@;
            assert(known);
        }
        if known {
            if ext@ == ".vst"@ { assert(plugin_extension_names()[0] == ext@); }
            if ext@ == ".vst3"@ { assert(plugin_extension_names()[1] == ext@); }
            if ext@ == ".component"@ { assert(plugin_extension_names()[2] == ext@); }
            if ext@ == ".clap"@ { assert(plugin_extension_names()[3] == ext@); }
            if ext@ == ".dll"@ { assert(plugin_extension_names()[4] == ext@); }
        }
    }
    known && !(clap && !is_dir)
}

/// Keys of a VST3 `moduleinfo.json` that may hold the version, the vendor and
/// the web address, in the order they are tried.
pub open spec fn version_keys() -> Seq<Seq<char>> {
    seq!["Version"@, "version"@]
}

pub open spec fn vendor_keys() -> Seq<Seq<char>> {
    seq!["Vendor"@, "vendor"@, "Manufacturer"@, "manufacturer"@, "Company"@, "company"@]
}

pub open spec fn url_keys() -> Seq<Seq<char>> {
    seq!["URL"@, "url"@, "Homepage"@, "homepage"@, "VendorURL"@, "vendorURL"@]
}

pub open spec fn entries_view(e: Seq<(String, String)>) -> Seq<(Seq<char>, Seq<char>)> {
    e.map_values(|p: (String, String)| (p.0@, p.1@))
}

/// The text under `key` among the string fields `fields`: the first field with
/// that key, if any.
pub open spec fn text_under(fields: Seq<(Seq<char>, Seq<char>)>, key: Seq<char>) -> Option<Seq<char>>
    decreases fields.len(),
{
    if fields.len() == 0 {
        None
    } else if fields[0].0 == key {
        Some(fields[0].1)
    } else {
        text_under(fields.drop_first(), key)
    }
}

/// The text under the first of `keys` that the fields hold.
pub open spec fn pick_text(fields: Seq<(Seq<char>, Seq<char>)>, keys: Seq<Seq<char>>) -> Option<Seq<char>>
    decreases keys.len(),
{
    if keys.len() == 0 {
        None
    } else {
        match text_under(fields, keys[0]) {
            Some(t) => Some(t),
            None => pick_text(fields, keys.drop_first()),
        }
    }
}

fn text_under_exec(fields: &Vec<(String, String)>, key: &str) -> (r: Option<String>)
    ensures
        opt_text(r) == text_under(entries_view(fields@), key@),
{
    assert(entries_view(fields@).skip(0) =~= entries_view(fields@));
    let mut i: usize = 0;
    while i < fields.len()
        invariant
            i <= fields.len(),
            text_under(entries_view(fields@), key@) == text_under(entries_view(fields@).skip(i as int), key@),
        decreases fields.len() - i,
    {
        assert(entries_view(fields@).skip(i as int).drop_first() =~= entries_view(fields@).skip(i + 1));
        if str_eq(fields[i].0.as_str(), key) {
            return Some(fields[i].1.clone());
        }
        i = i + 1;
    }
    None
}

fn pick_text_exec(fields: &Vec<(String, String)>, keys: &Vec<&'static str>) -> (r: Option<String>)
    ensures
        opt_text(r) == pick_text(entries_view(fields@), crate::scanner::views(keys@)),
{
    let ghost all = crate::scanner::views(keys@);
    assert(all.skip(0) =~= all);
    let mut i: usize = 0;
    while i < keys.len()
        invariant
            i <= keys.len(),
            all == crate::scanner::views(keys@),
            pick_text(entries_view(fields@), all) == pick_text(entries_view(fields@), all.skip(i as int)),
        decreases keys.len() - i,
    {
        assert(all.skip(i as int).drop_first() =~= all.skip(i + 1));
        assert(all.skip(i as int)[0] == keys@[i as int]@);
        match text_under_exec(fields, keys[i]) {
            Some(t) => return Some(t),
            None => {},
        }
        i = i + 1;
    }
    None
}

/// Version, vendor and web address found among the string fields of a VST3
/// `moduleinfo.json` (of its "JSON" object when it has one), or `None` when it
/// names none of them.
pub open spec fn spec_moduleinfo_metadata(fields: Seq<(Seq<char>, Seq<char>)>) -> Option<
    (Option<Seq<char>>, Option<Seq<char>>, Option<Seq<char>>),
> {
    let v = pick_text(fields, version_keys());
    let m = pick_text(fields, vendor_keys());
    let u = pick_text(fields, url_keys());
    if v is Some || m is Some || u is Some {
        Some((v, m, u))
    } else {
        None
    }
}

/// Version, vendor and web address from the string fields of a VST3
/// `moduleinfo.json`; `None` when it names none of them.
pub fn moduleinfo_metadata(fields: &Vec<(String, String)>) -> (r: Option<(Option<String>, Option<String>, Option<String>)>)
    ensures
        match r {
            Some((v, m, u)) => spec_moduleinfo_metadata(entries_view(fields@)) == Some(
                (opt_text(v), opt_text(m), opt_text(u)),
            ),
            None => spec_moduleinfo_metadata(entries_view(fields@)) is None,
        },
{
    let version_list: Vec<&'static str> = vec!["Version", "version"];
    let vendor_list: Vec<&'static str> = vec!["Vendor", "vendor", "Manufacturer", "manufacturer", "Company", "company"];
    let url_list: Vec<&'static str> = vec!["URL", "url", "Homepage", "homepage", "VendorURL", "vendorURL"];
    assert(crate::scanner::views(version_list@) =~= version_keys());
    assert(crate::scanner::views(vendor_list@) =~= vendor_keys());
    assert(crate::scanner::views(url_list@) =~= url_keys());
    let v = pick_text_exec(fields, &version_list);
    let m = pick_text_exec(fields, &vendor_list);
    let u = pick_text_exec(fields, &url_list);
    if v.is_some() || m.is_some() || u.is_some() {
        Some((v, m, u))
    } else {
        None
    }
}

/// The record of a plugin found at `path`: its name (the file stem), the format
/// its extension key names, the version and vendor found ("Unknown" when not),
/// the web address, its size in bytes and as text, the modification date and
/// the architectures.
pub open spec fn describes_plugin(
    p: PluginInfo,
    name: Seq<char>,
    path: Seq<char>,
    ext: Seq<char>,
    meta: (Option<Seq<char>>, Option<Seq<char>>, Option<Seq<char>>),
    size: u64,
    modified: Seq<char>,
    architectures: Seq<Seq<char>>,
) -> bool {
    &&& p.name@ == name
    &&& p.path@ == path
    &&& p.plugin_type@ == plugin_type_of(ext)
    &&& p.version@ == (match meta.0 { Some(v) => v, None => "Unknown"@ })
    &&& p.manufacturer@ == (match meta.1 { Some(m) => m, None => "Unknown"@ })
    &&& opt_text(p.manufacturer_url) == meta.2
    &&& p.size@ == spec_format_size(size as nat)
    &&& p.size_bytes == size
    &&& p.modified@ == modified
    &&& strings_view(p.architectures@) == architectures
}

/// Assembles the record of a plugin from what was read about it.
pub fn plugin_record(
    name: String,
    path: String,
    ext: &str,
    meta: (Option<String>, Option<String>, Option<String>),
    size: u64,
    modified: String,
    architectures: Vec<String>,
) -> (r: PluginInfo)
    ensures
        describes_plugin(
            r,
            name@,
            path@,
            ext@,
            (opt_text(meta.0), opt_text(meta.1), opt_text(meta.2)),
            size,
            modified@,
            strings_view(architectures@),
        ),
{
    proof {
        reveal_strlit("Unknown");
    }
    let (version, manufacturer, manufacturer_url) = meta;
    PluginInfo {
        name,
        path,
        plugin_type: owned(get_plugin_type(ext)),
        version: match version {
            Some(v) => v,
            None => owned("Unknown"),
        },
        manufacturer: match manufacturer {
            Some(m) => m,
            None => owned("Unknown"),
        },
        manufacturer_url,
        size: format_size(size),
        size_bytes: size,
        modified,
        architectures,
    }
}

/// What `plist` reads from the bytes of an `Info.plist`: when they hold a
/// dictionary, its entries in order, each key with the text of its value when
/// that value is a string; `None` when they do not parse or hold no dictionary.
pub uninterp spec fn plist_entries(bytes: Seq<u8>) -> Option<Seq<(Seq<char>, Option<Seq<char>>)>>;

pub open spec fn plist_entries_view(v: Seq<(String, Option<String>)>) -> Seq<(Seq<char>, Option<Seq<char>>)> {
    v.map_values(|e: (String, Option<String>)| (e.0@, opt_text(e.1)))
}

/// `plist::Value::from_reader` on the bytes, then each entry of the dictionary
/// with `Value::as_string` of its value. The result is the named one.
#[verifier::external_body]
fn read_plist_entries(bytes: &[u8]) -> (r: Option<Vec<(String, Option<String>)>>)
    ensures
        plist_entries(bytes@) == match r {
            Some(v) => Some(plist_entries_view(v@)),
            None => None,
        },
{
    let value = plist::Value::from_reader(std::io::Cursor::new(bytes)).ok()?;
    let dict = value.as_dictionary()?;
    Some(dict.iter().map(|(k, v)| (k.clone(), v.as_string().map(|t| t.to_string()))).collect())
}

/// The value under `key`: that of the first entry with the key, if any.
pub open spec fn entry_text(entries: Seq<(Seq<char>, Option<Seq<char>>)>, key: Seq<char>) -> Option<Seq<char>>
    decreases entries.len(),
{
    if entries.len() == 0 {
        None
    } else if entries[0].0 == key {
        entries[0].1
    } else {
        entry_text(entries.drop_first(), key)
    }
}

/// Version, manufacturer and web address an `Info.plist` gives: the short
/// version string, and the manufacturer the bundle identifier names.
pub open spec fn spec_plist_metadata(entries: Seq<(Seq<char>, Option<Seq<char>>)>) -> (
    Option<Seq<char>>,
    Option<Seq<char>>,
    Option<Seq<char>>,
) {
    let version = entry_text(entries, "CFBundleShortVersionString"@);
    match entry_text(entries, "CFBundleIdentifier"@) {
        Some(id) => (version, spec_bundle_manufacturer(id).0, spec_bundle_manufacturer(id).1),
        None => (version, None, None),
    }
}

fn entry_text_exec(entries: &Vec<(String, Option<String>)>, key: &str) -> (r: Option<String>)
    ensures
        opt_text(r) == entry_text(plist_entries_view(entries@), key@),
{
    assert(plist_entries_view(entries@).skip(0) =~= plist_entries_view(entries@));
    let mut i: usize = 0;
    while i < entries.len()
        invariant
            i <= entries.len(),
            entry_text(plist_entries_view(entries@), key@) == entry_text(plist_entries_view(entries@).skip(i as int), key@),
        decreases entries.len() - i,
    {
        assert(plist_entries_view(entries@).skip(i as int).drop_first() =~= plist_entries_view(entries@).skip(i + 1));
        if str_eq(entries[i].0.as_str(), key) {
            return match &entries[i].1 {
                Some(t) => Some(t.clone()),
                None => None,
            };
        }
        i = i + 1;
    }
    None
}

/// Version, manufacturer and web address from the entries of an `Info.plist`.
pub fn plist_metadata(entries: &Vec<(String, Option<String>)>) -> (r: (Option<String>, Option<String>, Option<String>))
    ensures
        (opt_text(r.0), opt_text(r.1), opt_text(r.2)) == spec_plist_metadata(plist_entries_view(entries@)),
{
    proof {
        reveal_strlit("CFBundleShortVersionString");
        reveal_strlit("CFBundleIdentifier");
    }
    let version = entry_text_exec(entries, "CFBundleShortVersionString");
    match entry_text_exec(entries, "CFBundleIdentifier") {
        Some(id) => {
            let (m, u) = bundle_manufacturer(id.as_str());
            (version, m, u)
        },
        None => (version, None, None),
    }
}

/// Version, manufacturer and web address from the bytes of a bundle's
/// `Info.plist`; all absent when they do not hold a property-list dictionary.
pub fn read_plist_info(bytes: &[u8]) -> (r: (Option<String>, Option<String>, Option<String>))
    ensures
        (opt_text(r.0), opt_text(r.1), opt_text(r.2)) == match plist_entries(bytes@) {
            Some(e) => spec_plist_metadata(e),
            None => (None, None, None),
        },
{
    match read_plist_entries(bytes) {
        Some(entries) => plist_metadata(&entries),
        None => (None, None, None),
    }
}

} // verus!
