# ascending_demo

The bookkeeping of a small 2D rendering demo, verified with Verus.

- `src/gui/`: the widget layer. `UI` keeps the drawing order, focus, hover,
  click and drag state of widgets stored in a `hecs::World`, and turns mouse
  input into events for the widgets' controls. `flags` holds the widget
  action bits, `tree` and `model` the specifications the operations are
  proved against, `button` the colour logic of a button.
- `src/graphics/`: vertex and index buffer sizes (`gpu_buffer`), sprite, map
  and glyph quads (`sprite`, `map`, `text`), the texture atlas's name cache
  and layer choice (`atlas`), textures decoded with the `image` crate
  (`texture`), and the uniform and layout records (`layouts`).
- `app/`: the program around the library: logging, reading image files,
  the camera matrices and the floating point vertex formats.

The tests under `tests/` exercise the library with the real `hecs` and
`image` crates.
