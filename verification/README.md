# aula_rgb

Lighting control for the AULA F75 keyboard, over its wired USB link and its
2.4 GHz receiver, with the decisions proved correct by Verus.

## Layout

- `src/` — the verified library: colours and frames, the key map, both wire
  protocols (packet and frame building, checksums, chunking, the receiver's
  colour-group planning), pacing and keepalive rules, device discovery and
  selection, the render engine's state, and the exact parts of the effect
  engine (colour text, the scrolling-text font, image decoding and sampling,
  file-name rules) and the composition editor's decisions (undo history,
  painting a keyframe, moving and deleting layers and keyframes). Each
  public function states its result in `ensures`; laws that span several
  functions are public proof functions.
- `tests/` — tests of the library on concrete values.
- `app/` — the command-line program around it: HID I/O through `hidapi`, the
  floating-point effect renderers, Rhai scripts, reading imported files,
  settings files, and the engine thread that performs what the library
  decides. There is no desktop window, tray icon or composition editor here:
  the program is a command line, and a windowed front end would drive the
  engine thread and the editor decisions the library provides.
