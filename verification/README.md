# gemshell

The logic of a small handheld Linux shell, written in Verus: the parsers for
`nmcli`, `wpctl` and `bluetoothctl` output, the battery guard and sleep-mode
decisions, the in-memory demo data provider, `.desktop` entry parsing, icon
decoding and lookup, the settings panel model, window-stack and switcher
rules, touch (multitouch protocol B) decoding and input-device selection.

Layout:

- `src/` — the verified library. Each module states its behaviour as
  `requires`/`ensures` contracts over spec functions; the `law_*` proof
  functions state properties that span several calls.
- `tests/` — tests on concrete values.
- `app/` — the command-line program around the library: reading sysfs,
  running the system tools, mapping device memory, talking to i2c and evdev.
  It hands plain values to the library and acts on what comes back.
