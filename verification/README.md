# monitor_splitter

Split one physical monitor into several virtual monitors. A virtual display
driver creates virtual monitors mapped to regions of a physical display; a
desktop app configures them over a named pipe.

- `src/` is the verified library (Verus): the shared protocol types and equal
  split presets (`protocol`), exact fractions of a monitor (`ratio`), synthetic
  EDID blocks and region validation (`edid`), whether regions cover the
  whole monitor (`coverage`), the driver's virtual monitor
  bookkeeping (`monitor_manager`), the driver's answer to each message
  (`pipe_server`), the app's pipe client state (`pipe_client`), what the app
  makes of each answer (`replies`), hotkey bindings (`hotkeys`) and decimal
  text (`text`).
- `app/` is the desktop application around it: JSON copies of the protocol
  types, the pipe I/O, configuration files and the Tauri commands.
- `tests/` runs the library on concrete values.

Region positions and sizes are exact fractions of the monitor's width and
height. The app reads them from JSON as decimals over the denominator 720720,
the least common multiple of 1 to 16.
