# edv

The editing core of `edv`, a command-line video editor, written in Verus: every
function under `src/` carries a contract that Verus proves.

## Layout

- `src/utility`: text helpers (decimal numbers, splitting, trimming), timeline
  time values in milliseconds, and GPU capability testing with its report.
- `src/project`: identifiers, assets and the project itself; `timeline` (tracks,
  clips, track relationships and how edits spread along them, undo/redo history,
  keyframes); `rendering` (codecs, hardware acceleration, the render cache index,
  the compositor's filter graphs and encoder command line, render stages and
  progress); `serialization` (the project file's version check and the records a
  timeline, its assets and metadata are written to and rebuilt from).
- `src/subtitle`: subtitle formats and timestamps, styles, subtitles and tracks,
  the SRT and WebVTT readers, and the subtitle editor.
- `tests/`: tests of the library.
- `app/`: what runs around the library: files, the clock, threads, the encoder
  process, JSON project files and floating-point adapters.

Times are whole milliseconds throughout the library; the application converts
floating-point seconds at its edge.
