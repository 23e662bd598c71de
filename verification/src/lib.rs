//! A music producer's file library: sample-name analysis, MIDI reading and
//! generation, plugin and file scanning decisions, project and PDF metadata,
//! and the exports of what was found.
use vstd::prelude::*;

pub mod app_log;
pub mod archive;
pub mod bundle;
pub mod format;
pub mod found;
pub mod generators;
pub mod kits;
pub mod listing;
pub mod midi;
pub mod midi_gen;
pub mod open_with;
pub mod patterns;
pub mod pdf_meta;
pub mod prefs;
pub mod project;
pub mod random;
pub mod roots;
pub mod roundtrip;
pub mod sample_analysis;
pub mod scanner;
pub mod text;
pub mod updates;
pub mod walk;

verus! {

} // verus!
