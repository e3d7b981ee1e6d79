# asve

The verified core of a small desktop video clipper: it plays a video, lets the user
mark a clip, shows and searches the video's subtitles, and exports the clip (video or
GIF, with burned-in subtitles) through `ffmpeg`.

`src/` is the library, written in Verus and proved against its contracts:

- `decimal`, `text` — numerals, trimming, splitting, lines, UTF-8 lengths.
- `srt`, `timestamp` — SRT timecodes, timing lines and files; clip time fields.
- `probe` — the subtitle streams `ffprobe` reports and their titles.
- `subtitles`, `clip_srt` — the entry shown at a time, subtitle search, the clip tab's
  cue text, its conversion to SRT, and the proof that it reads back as the clip's entries.
- `ffmpeg` — the argument lists of the `ffmpeg`/`ffprobe` runs, filters, audio codecs.
- `controls`, `playback`, `config` — checkbox, select and export-format state, playback
  state, settings and theme choice.
- `input_mode`, `text_field`, `rope_ext`, `input_state` — the text inputs: layout modes,
  single-field editing, line and offset queries over a `ropey::Rope`, and the multi-line
  editing state.

`app/` is the command-line shell around it: argument handling, running `ffprobe` and
`ffmpeg`, reading and writing the settings file. `tests/` holds the tests.
