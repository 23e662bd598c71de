//! PDF metadata: the page count and the Info dictionary's creation and
//! modification dates, read by `lopdf` from a file's bytes.
use vstd::prelude::*;
use crate::scanner::opt_text;
use crate::text::{owned, trim, trim_ws};

verus! {

/// Page count and Info dates of a PDF.
#[derive(Debug, Clone)]
pub struct PdfMetaFields {
    pub pages: u32,
    pub pdf_creation_date: Option<String>,
    pub pdf_mod_date: Option<String>,
}

/// What `lopdf` reads of a PDF's bytes: page count, CreationDate and ModDate,
/// or `None` when the bytes do not load as a PDF.
pub uninterp spec fn pdf_info(bytes: Seq<u8>) -> Option<(u32, Option<Seq<char>>, Option<Seq<char>>)>;

/// `lopdf::Document::load_mem`, then `Document::get_pages` and the trailer's
/// `/Info` dictionary: the number of pages lopdf's page tree walk finds and the
/// `/CreationDate` and `/ModDate` text strings (decoded by
/// `lopdf::decode_text_string`), `None` when lopdf refuses the bytes. The result
/// is the named one.
///
/// The full load is used rather than `load_metadata_mem`, whose page count adds
/// the kids' `/Count` values in a `u32` where the root has none and so panics,
/// with overflow checks on, when they sum past `u32::MAX`; the page tree walk
/// counts pages one by one and is bounded by the number of objects.
#[verifier::external_body]
fn read_pdf_info(bytes: &[u8]) -> (r: Option<(u32, Option<String>, Option<String>)>)
    ensures
        pdf_info(bytes@) == match r {
            Some((p, c, m)) => Some((p, opt_text(c), opt_text(m))),
            None => None,
        },
{
    let doc = match lopdf::Document::load_mem(bytes) {
        Ok(d) => d,
        Err(_) => return None,
    };
    let info = doc.trailer.get(b"Info").and_then(lopdf::Object::as_reference).and_then(|id| doc.get_dictionary(id)).ok();
    let text = |key: &[u8]| info.and_then(|d| d.get(key).ok()).and_then(|o| lopdf::decode_text_string(o).ok());
    Some((doc.get_pages().len() as u32, text(b"CreationDate"), text(b"ModDate")))
}

/// An Info date as kept: trimmed, and absent when nothing is left.
pub open spec fn spec_norm_info_date(s: Option<Seq<char>>) -> Option<Seq<char>> {
    match s {
        Some(t) => if trim_ws(t).len() == 0 { None } else { Some(trim_ws(t)) },
        None => None,
    }
}

/// Trims an Info date; an empty one counts as absent.
pub fn norm_info_date(s: Option<String>) -> (r: Option<String>)
    ensures
        opt_text(r) == spec_norm_info_date(opt_text(s)),
{
    match s {
        Some(t) => {
            let trimmed = trim(t.as_str());
            if trimmed.is_empty() {
                None
            } else {
                Some(owned(trimmed))
            }
        },
        None => None,
    }
}

/// The fields kept of what was read: the page count and both dates normalised.
pub open spec fn fields_of(f: PdfMetaFields, pages: u32, creation: Option<Seq<char>>, modification: Option<Seq<char>>) -> bool {
    &&& f.pages == pages
    &&& opt_text(f.pdf_creation_date) == spec_norm_info_date(creation)
    &&& opt_text(f.pdf_mod_date) == spec_norm_info_date(modification)
}

/// The metadata record of a PDF from its page count and raw Info dates.
pub fn pdf_meta_fields(pages: u32, creation: Option<String>, modification: Option<String>) -> (r: PdfMetaFields)
    ensures
        fields_of(r, pages, opt_text(creation), opt_text(modification)),
{
    PdfMetaFields { pages, pdf_creation_date: norm_info_date(creation), pdf_mod_date: norm_info_date(modification) }
}

/// Page count and Info dates of the PDF in `bytes`; `None` if it cannot be
/// parsed.
pub fn extract_pdf_meta(bytes: &[u8]) -> (r: Option<PdfMetaFields>)
    ensures
        match r {
            Some(f) => pdf_info(bytes@) matches Some((p, c, m)) && fields_of(f, p, c, m),
            None => pdf_info(bytes@) is None,
        },
{
    match read_pdf_info(bytes) {
        Some((pages, creation, modification)) => Some(pdf_meta_fields(pages, creation, modification)),
        None => None,
    }
}

/// Page count of the PDF in `bytes`; `None` if it cannot be parsed.
pub fn extract_page_count(bytes: &[u8]) -> (r: Option<u32>)
    ensures
        match r {
            Some(n) => pdf_info(bytes@) matches Some((p, _, _)) && n == p,
            None => pdf_info(bytes@) is None,
        },
{
    match extract_pdf_meta(bytes) {
        Some(f) => Some(f.pages),
        None => None,
    }
}

} // verus!
