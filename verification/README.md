# ppk2tui

A terminal user interface for the Nordic Semiconductor Power Profiler Kit 2 (PPK2).
It connects over USB serial, reads current samples at 100 kHz, and shows a live chart
with rolling and session statistics. Samples can be logged to a CSV file.

## Layout

- `src/`: the library, verified with Verus. It holds the device protocol, calibration,
  the spike filter, the log format, the sample buffer, key bindings, the decisions of the
  acquisition thread, and what the screen shows.
- `app/`: the program around it, with the serial port, files, threads, the terminal and
  floating-point arithmetic.
- `tests/`: tests of the library.

## Floating point

Currents are single-precision values. The library holds them by their bit patterns, on
which it compares and selects them; arithmetic, parsing and printing are done by an
implementation of `float::FloatUnit`. Contracts say which operation is applied to which
operands, and nothing of its result.

## Options

```
  -p, --port <PORT>       Serial port (required)
  -m, --mode <MODE>       ampere or source [default: ampere]
  -v, --voltage <MV>      Source voltage in mV, 800–5000 [default: 3300]
  -l, --log <FILE>        Log avg/min/max to CSV
      --log-interval-us   CSV bucket size in µs [default: 100000]
```

## Key bindings

| Key | Action |
|-----|--------|
| `p` | Toggle DUT power |
| `s` | Cycle time scale (1s → 5s → 10s → 30s → 1m → 5m → 10m) |
| `u` | Cycle units (Auto / µA / mA) |
| `r` | Reset the device |
| `↑` / `↓` | Adjust source voltage ±100 mV (source mode only) |
| `q` | Quit |

## Build provenance

`--version` and the chart header name the build. The build takes the name of its source
from `PPK2TUI_GIT_SHA`, or else from `PPK2TUI_GIT_HEAD` and `PPK2TUI_GIT_STATUS` (what
`git rev-parse --short HEAD` and `git status --porcelain --untracked-files=no` print), and
its date from `SOURCE_DATE_EPOCH`.
