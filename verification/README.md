# systemhog

A CPU and RAM resource maintainer: it holds system usage inside a
configured band by adjusting the duty cycle of one busy-loop worker per
core and by allocating or freeing 10 MiB memory blocks.

The decision logic is a library verified with Verus (`src/`); the daemon,
its `/proc` reads, threads, signals, files and `systemctl`/`curl` calls
live in the thin program under `app/`.

Layout of `src/`:

- `text.rs` — character-level helpers (trim, split, lines, decimal
  parsing and printing) with specifications over `Seq<char>`.
- `log.rs` — the proleptic Gregorian calendar, day-number conversion
  (proved to round-trip), UTC timestamps and log-rotation rules.
- `metrics.rs` — parsing of `/proc/stat` and `/proc/meminfo` text into
  counters.
- `pump.rs` — the CPU controller step and the RAM steering decision,
  and the block store whose size is kept within its limit.
- `config.rs` — the configuration model, its file format, the parser
  and renderer (proved to round-trip) and validation.
- `cli.rs` — argument handling, wizard validators and command dispatch.
- `update.rs` — version parsing and printing, release asset names,
  redirect and checksum parsing, and the update decision.
- `sys/systemd.rs` — unit file text and `systemctl` argument lists.

Tests under `tests/` run the compiled library on concrete values.
