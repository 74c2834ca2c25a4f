# Normalizador NQ4

A desktop tool to inspect, edit and normalise the ID3 tags of MP3 files
without re-encoding the audio. Normalisation writes its results into the
folder `MP3 normalizados` beside the source folder and leaves the original
MP3 as it was.

## Layout

- `src/` is the verified library (Verus):
  - `text.rs`: trimming, case-insensitive comparison and decimal numbers;
  - `model.rs`: files, tag fields, diagnostics, options and errors;
  - `id3_tag.rs`: the frames of an ID3v2 tag and the calls into the `id3`
    crate;
  - `repository.rs`: reading the fields and diagnostics of a file, and
    writing edited fields back into a tag;
  - `tag_laws.rs`: what reads back after fields are written;
  - `normalizer.rs`: the steps of the iPod-safe profile, where residual
    ID3v1 and APEv2 tags end a file, and the JPEG cover;
  - `controller.rs`: the list of files, the selection and the status line;
  - `batch.rs`: normalising the whole list one file at a time;
  - `scanner.rs`: which files of a folder are listed, and in what order;
  - `search.rs`: which files the search box keeps;
  - `icon.rs`: writing pixels of the window icon.
- `app/` is the program around it: the `eframe` interface, dialogs, and the
  file work (reading and writing files, backups, walking folders).
- `tests/` runs the library on concrete values.
