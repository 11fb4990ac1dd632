# listent

The verified core of `listent`, a macOS tool that lists the code-signing
entitlements of executables, watches new processes for them, and runs as a
LaunchD daemon.

- `src/` is the library, verified with Verus: entitlement plist parsing, glob
  filters, the scan tally and its human-readable report, the progress line,
  process tracking between polls and the monitor's filters, command-line
  decisions, LaunchD plist generation, daemon control decisions, log reading,
  and the control-socket replies.
- `app/` is the program around it: argument parsing with clap, file-system
  walking, `codesign`, `sysinfo`, `launchctl`, signals, tokio, JSON output and
  the unified logging backend.
- `tests/` exercises the library on concrete values.
