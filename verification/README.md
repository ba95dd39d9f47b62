# mediaqa

A media QA preflight tool for post-production delivery: it checks video
files against delivery profiles (container, resolution, audio, duration,
captions and thumbnails), gathers the results into batch reports with exit
codes (0 pass, 2 warnings only, 1 failure), compares runs, and serves a small
studio API (sessions, workspaces, uploads, remote jobs, plans, usage).

## Layout

- `src/` — the library, verified with Verus. Each module states its behaviour
  in `requires`/`ensures` over spec functions:
  - `config`, `validate`, `suggestions`, `probe`, `analyze`, `captions`,
    `package`, `checklist`: profiles and the per-file checks;
  - `pipeline`, `report`, `batch`, `diff`, `render`, `html_report`: reports,
    batch findings, run comparison and their text and HTML forms;
  - `scanner`, `paths`, `history`, `webhook`, `watch`, `desktop`: choices made
    around folders, saved reports, webhooks and folder watches;
  - `studio/*` and `api`: the studio service's data and requests;
  - `text`, `seqs`, `numbers`, `time`: shared helpers;
  - `float_text`: decimal numbers written as `f64::from_str` reads them,
    read as whole counts of a unit.
  Laws of the library are public proof functions named `law_*`.
- `app/` — the command-line program: argument parsing, ffprobe/ffmpeg,
  the file system, JSON and TOML, the HTTP server and the folder watcher.
- `tests/` — tests of the library.

Durations are kept in whole nanoseconds (truncated toward zero, held
within `i64::MAX`, or not a number), the longest silence in milliseconds
and loudness in tenths of a decibel; paths are text with `/` as the
separator. The library never reads the clock: functions that stamp a
record take the time as an argument, and the program reads the clock.

