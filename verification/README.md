# tiktok_archiver

A TikTok account watcher and downloader whose rules are proved with Verus.

The program polls the accounts listed in `config.yaml`, keeps a JSON
database of the videos it has seen, downloads the ones still owed a download
with `yt-dlp`, and raises a critical alert when polling keeps failing.

## Layout

- `src/` — the verified library: the seen-videos database and its
  bookkeeping (`buckets`, `seen`, `video`), account counts and their
  reconciliation (`account`), page scraping and the scroll schedule (`api`,
  `discover`), cookie handling (`cookies`), configuration (`config`), poll
  health and critical failures (`poll_health`, `critical`), the steps of a poll
  cycle (`cycle`), reading a double from its bits (`binary64`), dates and logging
  (`dates`, `logger`), download decisions (`download`), file decoding
  (`encoding`), the state directory's file names (`state`) and text helpers
  (`text`). Every public function states its behaviour in `requires` /
  `ensures`; the `law_*` proof functions state properties that span calls.
- `app/` — the program around the library: the browser session
  (`headless_chrome`), HTTP, files, process handling, the poll loop and the
  serde shapes of the stored files.
- `tests/` — tests of the library on concrete values.

Calls into `regex`, `serde_json`, `chrono` and std's UTF decoders made by the library go through
small trusted wrappers whose doc comments say what is assumed of them.
