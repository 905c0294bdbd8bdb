# pattern

The core of a floating Wayland compositor, written in Verus: every function
under `src/` carries a contract that Verus proves.

- `src/wm/` — the window manager: outputs with numbered workspaces and four
  layer-shell layers, mapping and unmapping windows, transient families that
  are raised together, focus, maximize and fullscreen configures,
  interactive move and resize, workspace swipes, layer-shell layout.
  `wm/laws.rs` and the `law_*` proof functions elsewhere state what holds
  across operations.
- `src/slot_vec.rs` — the slot vector that holds workspaces by index.
- `src/config/` — compositor commands and key-chord parsing.
- `src/input/` — modifier masks and the key-binding table.
- `src/popup.rs` — xdg popup placement from a positioner.
- `src/gpu.rs` — decoding a client's gamma ramps.
- `tests/` — tests of the library on concrete values.
- `app/` — the program around the library: the Wayland socket and client
  loop, protocol enums, keymap lookups, memory-mapped gamma files and the
  floating-point pointer and animation arithmetic.
