# audio_haxor

A library for organising a music producer's files — audio samples, MIDI files,
plugins, presets, PDFs and DAW projects — with its behaviour stated as Verus
contracts and proved.

`src/` is the verified library:

- `sample_analysis` reads BPM, key, category, sample pack and manufacturer from
  a sample's file name and folder;
- `midi` summarises a MIDI file's bytes; `midi_gen`, `generators`, `kits` and
  `roundtrip` write MIDI files of generated lead patterns, and prove that what
  is written reads back as written;
- `scanner`, `bundle`, `walk`, `roots`, `found`, `listing` decide what the
  plugin and file scans look at, keep and report, and how lists are exported;
- `project` and `pdf_meta` read DAW project files and PDF metadata;
- `open_with`, `app_log`, `format`, `text`, `patterns`, `random` hold the rest:
  opening files with an application, the application log, text formatting, and
  the few calls into `std`, `regex`, `rand`, `lopdf` and `plist` whose contracts
  are trusted.

`app/` is a small command-line front end that does the file and process work
around the library. `tests/` runs the library on concrete inputs.
