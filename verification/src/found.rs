//! The records of the files the walkers find (MIDI files, presets, PDFs) and
//! the delimited exports of preset and PDF lists.
use vstd::prelude::*;
use crate::format::spec_format_size;
use crate::scanner::{dsv_cell, format_size, push_field, push_label};
use crate::text::{chars_of, push_char, unicode_upper_str, upper_case};

verus! {

/// A MIDI file found by a walk.
#[derive(Debug, Clone)]
pub struct MidiFile {
    pub name: String,
    pub path: String,
    pub directory: String,
    pub format: String,
    pub size: u64,
    pub size_formatted: String,
    pub modified: String,
}

/// A preset file found by a walk.
#[derive(Debug, Clone)]
pub struct PresetFile {
    pub name: String,
    pub path: String,
    pub directory: String,
    pub format: String,
    pub size: u64,
    pub size_formatted: String,
    pub modified: String,
}

/// A PDF found by a walk.
#[derive(Debug, Clone)]
pub struct PdfFile {
    pub name: String,
    pub path: String,
    pub directory: String,
    pub size: u64,
    pub size_formatted: String,
    pub modified: String,
}

/// The format label of an extension key such as ".fxp": the extension without
/// its dot, upper-cased.
pub open spec fn format_label(ext: Seq<char>) -> Seq<char> {
    unicode_upper_str(ext.drop_first())
}

fn format_of(ext: &str) -> (r: String)
    requires
        ext@.len() > 0,
    ensures
        r@ == format_label(ext@),
{
    let cs = chars_of(ext);
    let mut tail = String::new();
    let mut k: usize = 1;
    while k < cs.len()
        invariant
            1 <= k <= cs.len(),
            cs@ == ext@,
            tail@ == cs@.subrange(1, k as int),
        decreases cs.len() - k,
    {
        push_char(&mut tail, cs[k]);
        assert(cs@.subrange(1, k + 1) =~= cs@.subrange(1, k as int).push(cs@[k as int]));
        k = k + 1;
    }
    assert(cs@.subrange(1, cs@.len() as int) =~= ext@.drop_first());
    upper_case(tail.as_str())
}

/// The record of a MIDI file with extension key `ext` (".mid" or ".midi").
pub fn midi_file(name: String, path: String, directory: String, ext: &str, size: u64, modified: String) -> (r: MidiFile)
    requires
        ext@.len() > 0,
    ensures
        r.name == name,
        r.path == path,
        r.directory == directory,
        r.format@ == format_label(ext@),
        r.size == size,
        r.size_formatted@ == spec_format_size(size as nat),
        r.modified == modified,
{
    MidiFile { name, path, directory, format: format_of(ext), size, size_formatted: format_size(size), modified }
}

/// The record of a preset file with extension key `ext` (such as ".fxp").
pub fn preset_file(name: String, path: String, directory: String, ext: &str, size: u64, modified: String) -> (r: PresetFile)
    requires
        ext@.len() > 0,
    ensures
        r.name == name,
        r.path == path,
        r.directory == directory,
        r.format@ == format_label(ext@),
        r.size == size,
        r.size_formatted@ == spec_format_size(size as nat),
        r.modified == modified,
{
    PresetFile { name, path, directory, format: format_of(ext), size, size_formatted: format_size(size), modified }
}

/// The record of a PDF.
pub fn pdf_file(name: String, path: String, directory: String, size: u64, modified: String) -> (r: PdfFile)
    ensures
        r.name == name,
        r.path == path,
        r.directory == directory,
        r.size == size,
        r.size_formatted@ == spec_format_size(size as nat),
        r.modified == modified,
{
    PdfFile { name, path, directory, size, size_formatted: format_size(size), modified }
}

/// The header line of a preset export.
pub open spec fn preset_header(sep: char) -> Seq<char> {
    "Name"@ + seq![sep] + "Format"@ + seq![sep] + "Path"@ + seq![sep] + "Directory"@ + seq![sep] + "Size"@
        + seq![sep] + "Modified"@ + seq!['\n']
}

/// One preset's line: name, format, path, folder, size and date, escaped.
pub open spec fn preset_row(p: PresetFile, sep: char) -> Seq<char> {
    dsv_cell(p.name@, sep, false) + dsv_cell(p.format@, sep, false) + dsv_cell(p.path@, sep, false) + dsv_cell(
        p.directory@,
        sep,
        false,
    ) + dsv_cell(p.size_formatted@, sep, false) + dsv_cell(p.modified@, sep, true)
}

pub open spec fn preset_rows(ps: Seq<PresetFile>, sep: char) -> Seq<char>
    decreases ps.len(),
{
    if ps.len() == 0 {
        Seq::empty()
    } else {
        preset_rows(ps.drop_last(), sep) + preset_row(ps.last(), sep)
    }
}

/// The header line of a PDF export.
pub open spec fn pdf_header(sep: char) -> Seq<char> {
    "Name"@ + seq![sep] + "Path"@ + seq![sep] + "Directory"@ + seq![sep] + "Size"@ + seq![sep] + "Modified"@
        + seq!['\n']
}

/// One PDF's line: name, path, folder, size and date, escaped.
pub open spec fn pdf_row(p: PdfFile, sep: char) -> Seq<char> {
    dsv_cell(p.name@, sep, false) + dsv_cell(p.path@, sep, false) + dsv_cell(p.directory@, sep, false) + dsv_cell(
        p.size_formatted@,
        sep,
        false,
    ) + dsv_cell(p.modified@, sep, true)
}

pub open spec fn pdf_rows(ps: Seq<PdfFile>, sep: char) -> Seq<char>
    decreases ps.len(),
{
    if ps.len() == 0 {
        Seq::empty()
    } else {
        pdf_rows(ps.drop_last(), sep) + pdf_row(ps.last(), sep)
    }
}

fn push_preset(out: &mut String, p: &PresetFile, sep: char)
    ensures
        final(out)@ == old(out)@ + preset_row(*p, sep),
{
    let ghost start = out@;
    push_field(out, p.name.as_str(), sep, false);
    push_field(out, p.format.as_str(), sep, false);
    push_field(out, p.path.as_str(), sep, false);
    push_field(out, p.directory.as_str(), sep, false);
    push_field(out, p.size_formatted.as_str(), sep, false);
    push_field(out, p.modified.as_str(), sep, true);
    assert(out@ =~= start + preset_row(*p, sep));
}

fn push_pdf(out: &mut String, p: &PdfFile, sep: char)
    ensures
        final(out)@ == old(out)@ + pdf_row(*p, sep),
{
    let ghost start = out@;
    push_field(out, p.name.as_str(), sep, false);
    push_field(out, p.path.as_str(), sep, false);
    push_field(out, p.directory.as_str(), sep, false);
    push_field(out, p.size_formatted.as_str(), sep, false);
    push_field(out, p.modified.as_str(), sep, true);
    assert(out@ =~= start + pdf_row(*p, sep));
}

/// The text of a preset export separated by `sep`: a header line, then one line
/// per preset.
pub fn presets_dsv(presets: &[PresetFile], sep: char) -> (r: String)
    ensures
        r@ == preset_header(sep) + preset_rows(presets@, sep),
{
    let mut out = String::new();
    push_label(&mut out, "Name", sep, false);
    push_label(&mut out, "Format", sep, false);
    push_label(&mut out, "Path", sep, false);
    push_label(&mut out, "Directory", sep, false);
    push_label(&mut out, "Size", sep, false);
    push_label(&mut out, "Modified", sep, true);
    assert(out@ =~= preset_header(sep));
    let mut i: usize = 0;
    while i < presets.len()
        invariant
            i <= presets.len(),
            out@ == preset_header(sep) + preset_rows(presets@.take(i as int), sep),
        decreases presets.len() - i,
    {
        push_preset(&mut out, &presets[i], sep);
        proof {
            assert(presets@.take(i + 1).drop_last() =~= presets@.take(i as int));
        }
        i = i + 1;
        assert(out@ =~= preset_header(sep) + preset_rows(presets@.take(i as int), sep));
    }
    assert(presets@.take(i as int) =~= presets@);
    out
}

/// The text of a PDF export separated by `sep`: a header line, then one line
/// per PDF.
pub fn pdfs_dsv(pdfs: &[PdfFile], sep: char) -> (r: String)
    ensures
        r@ == pdf_header(sep) + pdf_rows(pdfs@, sep),
{
    let mut out = String::new();
    push_label(&mut out, "Name", sep, false);
    push_label(&mut out, "Path", sep, false);
    push_label(&mut out, "Directory", sep, false);
    push_label(&mut out, "Size", sep, false);
    push_label(&mut out, "Modified", sep, true);
    assert(out@ =~= pdf_header(sep));
    let mut i: usize = 0;
    while i < pdfs.len()
        invariant
            i <= pdfs.len(),
            out@ == pdf_header(sep) + pdf_rows(pdfs@.take(i as int), sep),
        decreases pdfs.len() - i,
    {
        push_pdf(&mut out, &pdfs[i], sep);
        proof {
            assert(pdfs@.take(i + 1).drop_last() =~= pdfs@.take(i as int));
        }
        i = i + 1;
        assert(out@ =~= pdf_header(sep) + pdf_rows(pdfs@.take(i as int), sep));
    }
    assert(pdfs@.take(i as int) =~= pdfs@);
    out
}

} // verus!
