# nchctop

A top-like terminal view of Slurm jobs, built for NCHC clusters.

`src/` is the library: how the commands' output reads, what it comes to, and how
the screen answers, with the contracts proved by Verus. `app/` is the program
around it: it runs the cluster commands and the installer on background threads,
reads the keyboard, lays the screen out and draws it with ratatui. `tests/` runs
the library.

## Refresh

Each pane is fed by its own background thread, so a slow cluster never blocks
the interface. Press `r` to refresh everything at once.

| Pane | Command | Interval |
| --- | --- | --- |
| header | `wallet` | 60s |
| queue | `squeue` | 1s |
| last 30d | `sacct`, jobs started since `now-30days` | 30s |

The interval is the gap between fetches rather than a fixed period: a command
that takes a while to return backs itself off instead of piling up overlapping
runs.

## Cost

The right of the header totals what the recent jobs cost, over the last day,
week and month:

    wallet · MST000000 12345.6 SU        cost · 1d 147.7 SU · 7d 267.9 SU · 30d 267.9 SU

The balances are measured out first, so a terminal too narrow for both drops the
longest window rather than crowding them: `30d` goes, then `7d`, then the total
altogether.

A job is charged **30 SU per GPU-hour** — its GPUs held for as long as it ran,
with a job still going counted for the time it has run so far. A job lands in a
window by when it started, so a long job that straddles a boundary counts whole
in the windows containing its start. A job that asked for no GPUs shows as free.

Costs are double-precision numbers, rounded after every step and added up in the
order the pane lists the jobs. The library holds no floating-point number itself:
costs, balances and amounts of memory are read, rounded to double precision and
written out over whole numbers of any size, and a cost is a whole number of
2<sup>-64</sup> parts of a service unit.

## Modules

| Module | What it holds |
| --- | --- |
| `text` | reading text: trimming, splitting, lines, numbers |
| `natural` | whole numbers of any size |
| `number` | reading a number that has a point or an exponent |
| `double` | rounding to double precision, and writing the result |
| `tres` | Slurm's resource lists, and memory in gigabytes |
| `logfile` | expanding a job's output pattern into a path, and the file behind it |
| `logtail` | the end of a log, as a terminal would have shown it |
| `squeue`, `sacct`, `wallet` | what the three commands report |
| `scancel` | cancelling a job |
| `moment`, `cost` | points in time, and what the recent jobs cost |
| `command` | what a command left behind |
| `poller`, `feed` | background fetches, and the rows they bring |
| `rows`, `pane` | a scrolled table of rows |
| `keys`, `app` | the screen's state, and what a key or a result does to it |
| `style`, `screen` | what the lines and windows of the screen say |
| `update` | the startup check for a newer release |
