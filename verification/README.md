# ggo_launcher

The verified core of the GGO launcher, a Windows launcher for ClassicUO
clients: settings and profile migration, account selection for multi-client
launches, window layouts on the secondary monitor, the session registry of
launched clients, the broker that authenticates clients over a named pipe,
ClassicUO command lines, update planning and download checks, stored
password format, and the small decisions around them.

Layout:

- `src/` — the library, written in Verus. Every function carries a
  contract, except the two clock readers in `time.rs` (`unix_time_ms`,
  `unix_time_secs`) and `launcher_observed_time_ms`, whose value is whatever
  the clock says; their conversion of a reading (`millis_or_zero`,
  `secs_or_zero`) is specified. Laws that span several functions are public proof functions
  (`lemma_*`). Calls into `sha2`, `base64`, the URL parser behind
  `reqwest::Url` and a few `std` functions are trusted wrappers whose
  contracts are stated next to them.
- `tests/` — ordinary Rust tests of the library.
- `app/` — the application around it: settings files, DPAPI, HTTP fetches,
  process spawning, the Win32 window calls and the named-pipe server. The
  sequences it runs are decided by the library, one step at a time: the
  update swap and its roll-back (`apply`), the MULTI LOGIN spawn sequence
  (`multi_launch`) and the six-window position test (`six_test`); so are
  window targets, slot checks, monitor order and work-area checks. What
  stays in `app/` is the I/O and the loops that drive those steps, and the
  wait for a moved window to reach its target rectangle.
