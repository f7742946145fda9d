# airq

Air quality for any city, from the Open-Meteo model and Sensor.Community sensors, with a local
collector daemon that stores readings and detects pollution events.

The crate is a Verus project: the library under `src/` carries its specifications and proofs,
and `verus` checks them.

## Layout

- `src/` — the verified library.
  - `aqi`, `comfort`, `signals`, `idx`, `compass` — AQI categories, comfort bands and bars,
    the comfort signal columns and their weights, compass sector names and arrows.
  - `calendar`, `text`, `order` — dates since 1970, decimal formatting and parsing, text order.
  - `country` — country aliases, major cities and the country list of the bundled city table.
  - `event`, `merge` — counting agreeing sensors and classifying events; source-merge rules.
  - `group`, `csv`, `html`, `rank` — day and hour grouping, archive CSV fields, HTML escaping,
    ranking and the history sparkline.
  - `matrix` — the time series of signal rows (append, latest, time windows, compaction).
  - `weather`, `api`, `push`, `provider`, `clock` — the grid-cell weather cache, API query
    defaults and status, sensor-board push payloads, data providers, the wall and monotonic clocks.
  Public proof functions named `law_*` state the properties that hold across calls.
- `tests/` — tests of the library on concrete values.
- `app/` — the command-line program and the `serve` daemon: HTTP fetchers, SQLite storage, the
  web server, and the floating-point maths (EPA interpolation, comfort curves, EWMA baselines,
  fronts and reports) around the library.
