# datarender

A visualiser that reads any file as vertex data: every twelve bytes are three
little-endian 32-bit floats, one vertex; windows of six vertices are drawn as
line strips. A small control panel sends slider values (`index|value`
messages); the program collects them, but nothing yet takes them into the
view settings, so the view stays where it starts.

- `src/` — the verified library (Verus):
  - `decode.rs`: bytes to vertex words (`load_data`);
  - `window.rs`: `clamp`, the six-vertex windows and the window starts of a frame;
  - `parse.rs`: decimal integers (optional sign, digits, no overflow), the
    form that the control panel's messages use;
  - `controls.rs`: the control panel's `index|value` messages and the view settings;
  - `events.rs`: the main loop's decision for each window event.
- `app/` — the program: file dialog, file reading, the float arithmetic of
  vertices and matrices, OpenGL drawing (glium), the control panel (web-view).
- `tests/` — tests of the library.
