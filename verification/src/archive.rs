//! Text inside compressed project files: the XML of a gzip-compressed Ableton
//! set (cut for the viewer when very large), and the XML inside a ZIP archive
//! (Studio One songs, DAWproject files).
use vstd::prelude::*;
use vstd::utf8::encode_utf8;
use vstd::string::StringSliceAdditionalSpecFns;
use crate::project::ends_with_text;
use crate::text::{owned, push_str};
use std::io::Read;

verus! {

/// What `flate2` decompresses from gzip `bytes`, read as UTF-8 text, or the
/// text of the error it reports.
pub uninterp spec fn gzip_text(bytes: Seq<u8>) -> Result<Seq<char>, Seq<char>>;

pub open spec fn text_result(r: Result<String, String>) -> Result<Seq<char>, Seq<char>> {
    match r {
        Ok(s) => Ok(s@),
        Err(e) => Err(e@),
    }
}

/// `flate2::read::GzDecoder` over `bytes`, read to a string with
/// `Read::read_to_string`; an error is turned into its text. The result is the
/// named one.
#[verifier::external_body]
fn gunzip_text(bytes: &[u8]) -> (r: Result<String, String>)
    ensures
        text_result(r) == gzip_text(bytes@),
{
    let mut text = String::new();
    match flate2::read::GzDecoder::new(bytes).read_to_string(&mut text) {
        Ok(_) => Ok(text),
        Err(e) => Err(e.to_string()),
    }
}

/// How many bytes of XML the viewer is given.
pub const MAX_XML_SIZE: usize = 20000000;

/// The line added to XML that was cut for the viewer.
pub open spec fn truncation_note() -> Seq<char> {
    "\n<!-- TRUNCATED: file too large for viewer -->"@
}

/// XML as the viewer is given it: whole up to 20 MB, else its first 20 MB
/// followed by a note that it was cut (stated over the UTF-8 bytes).
pub open spec fn viewer_bytes(xml: Seq<char>) -> Seq<u8> {
    if encode_utf8(xml).len() > MAX_XML_SIZE {
        encode_utf8(xml).subrange(0, MAX_XML_SIZE as int) + encode_utf8(truncation_note())
    } else {
        encode_utf8(xml)
    }
}

/// The cut falls between two characters (or there is no cut).
pub open spec fn cut_fits(xml: Seq<char>) -> bool {
    encode_utf8(xml).len() > MAX_XML_SIZE ==> vstd::utf8::is_char_boundary(encode_utf8(xml), MAX_XML_SIZE as int)
}

proof fn lemma_encode_concat(a: Seq<char>, b: Seq<char>)
    ensures
        encode_utf8(a + b) == encode_utf8(a) + encode_utf8(b),
    decreases a.len(),
{
    if a.len() > 0 {
        lemma_encode_concat(a.drop_first(), b);
        assert((a + b).drop_first() =~= a.drop_first() + b);
        assert((a + b)[0] == a[0]);
    } else {
        assert(a + b =~= b);
    }
}

/// XML cut to 20 MB for the viewer, with a note when it was cut.
pub fn viewer_text(xml: &str) -> (r: String)
    requires
        cut_fits(xml@),
    ensures
        encode_utf8(r@) == viewer_bytes(xml@),
{
    assert(xml.spec_bytes() == encode_utf8(xml@));
    if xml.as_bytes().len() > MAX_XML_SIZE {
        let (head, _) = xml.split_at(MAX_XML_SIZE);
        assert(head.spec_bytes() == encode_utf8(head@));
        assert(encode_utf8(head@) =~= encode_utf8(xml@).subrange(0, MAX_XML_SIZE as int));
        let mut out = owned(head);
        push_str(&mut out, "\n<!-- TRUNCATED: file too large for viewer -->");
        proof {
            reveal_strlit("\n<!-- TRUNCATED: file too large for viewer -->");
            lemma_encode_concat(head@, truncation_note());
            assert(out@ == head@ + truncation_note());
            assert(encode_utf8(xml@).len() > MAX_XML_SIZE);
        }
        out
    } else {
        let r = owned(xml);
        assert(r@ == xml@);
        assert(encode_utf8(xml@).len() <= MAX_XML_SIZE);
        r
    }
}

/// The XML of an Ableton set for the viewer, from its gzip bytes: the
/// decompressed text cut to 20 MB, or the reason it is not valid gzip. `None`
/// when a cut at 20 MB would split a character.
pub fn read_als_xml(bytes: &[u8]) -> (r: Option<Result<String, String>>)
    ensures
        match gzip_text(bytes@) {
            Ok(xml) => match r {
                Some(Ok(v)) => cut_fits(xml) && encode_utf8(v@) == viewer_bytes(xml),
                None => !cut_fits(xml),
                Some(Err(_)) => false,
            },
            Err(e) => r matches Some(Err(m)) && m@ == "Not a valid gzip file: "@ + e,
        },
{
    match gunzip_text(bytes) {
        Ok(xml) => {
            let text = xml.as_str();
            assert(text@ == xml@);
            assert(text.spec_bytes() == encode_utf8(xml@));
            if text.as_bytes().len() > MAX_XML_SIZE && !text.is_char_boundary(MAX_XML_SIZE) {
                return None;
            }
            Some(Ok(viewer_text(text)))
        },
        Err(e) => {
            let mut m = owned("Not a valid gzip file: ");
            push_str(&mut m, e.as_str());
            Some(Err(m))
        },
    }
}

/// What the `zip` crate lists of the archive in `bytes`: each entry, by index,
/// with its name (`None` where the entry or its name cannot be read); or the
/// text of the error when the bytes are no ZIP archive.
pub uninterp spec fn zip_listing(bytes: Seq<u8>) -> Result<Seq<Option<Seq<char>>>, Seq<char>>;

/// What the `zip` crate gives of the entry `name` of the archive in `bytes`:
/// the text of the error when the archive or the entry cannot be opened; else
/// the entry's content read as UTF-8 text, or the text of the error reading it.
pub uninterp spec fn zip_member(bytes: Seq<u8>, name: Seq<char>) -> Result<Result<Seq<char>, Seq<char>>, Seq<char>>;

pub open spec fn names_view(v: Seq<Option<String>>) -> Seq<Option<Seq<char>>> {
    v.map_values(|n: Option<String>| match n {
        Some(s) => Some(s@),
        None => None,
    })
}

/// `zip::ZipArchive::new` on the bytes, then `by_index` and `ZipFile::name`
/// for each entry; errors are turned into their text. The result is the named
/// one.
#[verifier::external_body]
fn list_zip(bytes: &[u8]) -> (r: Result<Vec<Option<String>>, String>)
    ensures
        zip_listing(bytes@) == match r {
            Ok(v) => Ok(names_view(v@)),
            Err(e) => Err::<Seq<Option<Seq<char>>>, Seq<char>>(e@),
        },
{
    let mut archive = zip::ZipArchive::new(std::io::Cursor::new(bytes)).map_err(|e| e.to_string())?;
    let n = archive.len();
    Ok((0..n).map(|i| archive.by_index(i).ok().and_then(|f| f.name().ok().map(|s| s.to_string()))).collect())
}

/// `zip::ZipArchive::new` on the bytes, `by_name`, then `Read::read_to_string`
/// of the entry; errors are turned into their text. The result is the named
/// one.
#[verifier::external_body]
fn read_zip_member(bytes: &[u8], name: &str) -> (r: Result<Result<String, String>, String>)
    ensures
        zip_member(bytes@, name@) == match r {
            Ok(inner) => Ok(text_result(inner)),
            Err(e) => Err::<Result<Seq<char>, Seq<char>>, Seq<char>>(e@),
        },
{
    let mut archive = zip::ZipArchive::new(std::io::Cursor::new(bytes)).map_err(|e| e.to_string())?;
    let mut entry = archive.by_name(name).map_err(|e| e.to_string())?;
    let mut text = String::new();
    Ok(match entry.read_to_string(&mut text) {
        Ok(_) => Ok(text),
        Err(e) => Err(e.to_string()),
    })
}

/// The first listed entry whose name ends in `.xml`.
pub open spec fn first_xml(entries: Seq<Option<Seq<char>>>) -> Option<Seq<char>>
    decreases entries.len(),
{
    if entries.len() == 0 {
        None
    } else {
        match entries[0] {
            Some(n) => if ends_with_text(n, ".xml"@) { Some(n) } else { first_xml(entries.drop_first()) },
            None => first_xml(entries.drop_first()),
        }
    }
}

/// The XML found by trying `names` from index `i` on: the first entry that
/// opens and holds text, unless reading one fails; when none does, the first
/// `.xml` entry of the archive.
pub open spec fn zip_xml_from(bytes: Seq<u8>, names: Seq<Seq<char>>, entries: Seq<Option<Seq<char>>>, i: int) -> Result<
    Seq<char>,
    Seq<char>,
>
    decreases names.len() - i,
{
    if i < 0 || i >= names.len() {
        match first_xml(entries) {
            Some(n) => match zip_member(bytes, n) {
                Ok(r) => r,
                Err(e) => Err(e),
            },
            None => Err("No XML found in archive"@),
        }
    } else {
        match zip_member(bytes, names[i]) {
            Ok(Ok(s)) => if s.len() > 0 { Ok(s) } else { zip_xml_from(bytes, names, entries, i + 1) },
            Ok(Err(e)) => Err(e),
            Err(_) => zip_xml_from(bytes, names, entries, i + 1),
        }
    }
}

/// The XML read from a ZIP archive's bytes, trying `names` in order, then the
/// archive's first `.xml` entry.
pub open spec fn spec_read_zip_xml(bytes: Seq<u8>, names: Seq<Seq<char>>) -> Result<Seq<char>, Seq<char>> {
    match zip_listing(bytes) {
        Err(e) => Err("Not a valid ZIP: "@ + e),
        Ok(entries) => zip_xml_from(bytes, names, entries, 0),
    }
}

fn first_xml_exec(entries: &Vec<Option<String>>) -> (r: Option<String>)
    ensures
        crate::scanner::opt_text(r) == first_xml(names_view(entries@)),
{
    let ghost all = names_view(entries@);
    assert(all.skip(0) =~= all);
    let mut i: usize = 0;
    while i < entries.len()
        invariant
            i <= entries.len(),
            all == names_view(entries@),
            first_xml(all) == first_xml(all.skip(i as int)),
        decreases entries.len() - i,
    {
        assert(all.skip(i as int).drop_first() =~= all.skip(i + 1));
        assert(all.skip(i as int)[0] == all[i as int]);
        match &entries[i] {
            Some(n) => {
                let cs = crate::text::chars_of(n.as_str());
                if crate::project::ends_with_chars(&cs, ".xml") {
                    return Some(n.clone());
                }
            },
            None => {},
        }
        i = i + 1;
    }
    None
}

/// The XML inside a ZIP archive's bytes: the first of `names` that opens and
/// holds text (an error reading one is returned), else the archive's first
/// `.xml` entry; an error when the bytes are no archive or hold no XML.
pub fn read_zip_xml(bytes: &[u8], names: &Vec<&'static str>) -> (r: Result<String, String>)
    ensures
        text_result(r) == spec_read_zip_xml(bytes@, crate::scanner::views(names@)),
{
    let ghost ns = crate::scanner::views(names@);
    let entries = match list_zip(bytes) {
        Ok(v) => v,
        Err(e) => {
            let mut m = owned("Not a valid ZIP: ");
            push_str(&mut m, e.as_str());
            return Err(m);
        },
    };
    let ghost ev = names_view(entries@);
    let mut i: usize = 0;
    while i < names.len()
        invariant
            i <= names.len(),
            ns == crate::scanner::views(names@),
            ev == names_view(entries@),
            zip_listing(bytes@) == Ok::<Seq<Option<Seq<char>>>, Seq<char>>(ev),
            zip_xml_from(bytes@, ns, ev, 0) == zip_xml_from(bytes@, ns, ev, i as int),
        decreases names.len() - i,
    {
        assert(ns[i as int] == names@[i as int]@);
        match read_zip_member(bytes, names[i]) {
            Ok(Ok(text)) => {
                if !text.as_str().is_empty() {
                    return Ok(text);
                }
            },
            Ok(Err(e)) => return Err(e),
            Err(_) => {},
        }
        i = i + 1;
    }
    match first_xml_exec(&entries) {
        Some(n) => match read_zip_member(bytes, n.as_str()) {
            Ok(inner) => inner,
            Err(e) => Err(e),
        },
        None => Err(owned("No XML found in archive")),
    }
}

} // verus!
