# bnksound

The logic of a sound mixer, verified with Verus: what its window shows of the
sound server's streams, what a click or a key does, what is remembered between
sessions, and how a frame comes out in pixels.

- `src/` is the library. `state` reduces messages to a new state and commands for
  the sound server; `store` and `settings` read and write what is kept on disk;
  `view` projects the state into rows; `ui` lays them out, finds what the pointer
  is on and turns events into messages; `render` lists what a frame draws, places
  its text, draws on the pixels, and reads and writes PNG. The modules whose names
  end in `_laws` state what holds across several functions.
- `tests/` runs the library.
- `app/` is what stands around it: files, the sound server's floating-point gains,
  fonts, and the GTK widgets.
