# amdtelem

A terminal telemetry dashboard for AMD GPUs on Linux. The library (`src/`) is
written in Verus and holds what the dashboard decides and parses, each function
with a proved contract:

- `text` — a character-level model of white space, trimming, words, lines,
  prefix/suffix tests and decimal integers, with the scanners that implement it;
- `telem` — the telemetry state and its collection steps (hwmon readings,
  `amdgpu_pm_info`, `amdgpu_gem_info`, the memory clock with its DRI fallback),
  and the laws they obey;
- `discover` — which DRM entries are AMD cards, which card to watch, where its
  hwmon directory is, and what the card is called;
- `severity` — the green/yellow/red bands of temperatures and loads;
- `dashboard` — the event loop's decisions: the quit key, error lines, and the
  error panel's height.

`app/` is the program: it reads sysfs and debugfs, runs `lspci`, and draws the
dashboard with ratatui; it hands the library plain text and numbers.
