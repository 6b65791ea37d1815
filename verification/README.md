# arlen_comp

The decision logic of the Arlen Wayland compositor, written
in Verus and proved against its contracts.

- `src/` is the verified library:
  - `sensing` — the sensing master switch: the line reader of the switch file
    and where that file lives;
  - `grid`, `grid_manager` — the `arlen-grid-v1` text-grid back pane: per-window
    state, cell alignment, DOM holes, and the configure/ack resize handshake;
  - `theme` — theme selection and the published theme with its fallbacks;
  - `session_lock` — taking the session lock and configuring lock surfaces;
  - `presented` — which surfaces have ever reached the screen;
  - `golden` — golden-image checks for the headless render harness: the
    byte comparison, and the PNG decoding and encoding through the `png`
    crate;
  - `pointer_driver`, `probes` — the command language, argument reading and
    registry choices of the conformance probes;
  - `text`, `number` — whitespace, trimming, words and decimal numbers.
- `tests/` runs the library on concrete values.
- `app/` is the I/O around it: the environment and the switch file, JSON,
  reading and writing golden files, the smithay render harness and surface data, and the Wayland
  probe clients.
