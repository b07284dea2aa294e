# imfwizard-core

The core of IMF Wizard, an Interoperable Master Format (SMPTE ST 2067, App 2E)
package creator, as a library whose logic is verified with Verus.

## Layout

- `src/` is the verified library. Each module states in `requires`/`ensures`
  what its functions return, over spec functions on `Seq`, `Map` and integers:
  reading CPLs and ASSETMAPs into timelines, package diffs, SCC caption
  decoding, duration specs, RIFF/BW64 chunk walks, supplemental-package
  requests, source edits (trim and audio delay), the watch folder's state
  machine, ProRes and DCP export decisions, MCA label edits, tool discovery,
  validation and the REST API's answers. Laws that relate several calls stand
  as public proof functions named `law_*`.
- `src/text.rs` holds the string model the others build on: `str::find`,
  `trim`, `split`, `lines`, decimal spellings and parsing, each with a spec.
- Calls into outside crates (quick-xml, regex-lite, base64, `String::from_utf8_lossy`,
  `str::to_lowercase`, `FromIterator<char>`) stand behind small
  `#[verifier::external_body]` wrappers whose contracts say what the crate's
  documentation or source shows, or name the result where it takes pages to
  state.
- `tests/` exercises the library from outside.
- `app/` is the file, process and network side: it reads packages and WAV/BWF
  files, runs ffmpeg, xmllint, Photon and `which`, polls the watch folder, and
  converts results to their serde forms. It makes no decision of its own.
