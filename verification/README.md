# stayawake

A daemon for Windows that keeps the machine awake while it is really doing something:
playing sound, moving data, compiling, downloading, or doing work that some program has
announced by a hint file. When the activity ends and a grace period is over, it lets go.

The decisions are a library that is verified with Verus; the calls into the system are a
thin layer of ordinary Rust around it.

## Layout

| Where | What |
|---|---|
| `src/text.rs`, `src/fixed.rs`, `src/tally.rs` | Text, decimal numbers, rows in the order of their names |
| `src/big.rs`, `src/double.rs` | Natural numbers of any size, and double-precision numbers computed with them |
| `src/config.rs`, `src/config_laws.rs`, `src/config_defaults.rs`, `src/warnings.rs` | The configuration file: reading, rewriting one key, adding missing keys, complaints |
| `src/power.rs` | What can be held, the power source, the local time |
| `src/detect.rs`, `src/detect/` | The process table, rates, and the five detectors |
| `src/engine.rs`, `src/engine_laws.rs` | From reasons to what is held: modes, grace period, policy |
| `src/daemon.rs`, `src/log.rs` | The rounds of the worker, its log, the report of `--status` |
| `src/autostart.rs` | Starting with the session |
| `src/icon.rs`, `src/png.rs`, `src/icon_laws.rs`, `src/png_laws.rs` | The pictures, and the icon file |
| `src/tray.rs`, `src/tray_laws.rs` | The icon's tip, the menu and the messages |
| `app/` | The program: threads, files, the window, and all calls into Windows |

What holds of the library as a whole is stated by the functions named `law_...`.

## Units

Times are nanoseconds of a clock that never goes back; file times are ticks of 100 ns.
Rates are kilobytes per second, shares of a processor core are percent, and sound levels
are fractions of full scale. These and the configured fractions are double-precision
numbers, computed with integers: each operation rounds to the nearest double, ties to the
even one. The pictures are computed exactly, in integers.
