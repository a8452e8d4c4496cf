# oven_vision

Watches the knobs and the lamps of a stove through a camera: it finds the panel in a frame, reads
the angle of each knob and the color of each lamp, and reports what changed.

- `src/` is the library. Its functions carry contracts that Verus proves. `pipeline/` finds the
  panel and its knobs once, in stages that can be repeated and fall back on each other; `stage/`
  is what every streamed frame passes through; `detect.rs` and `led.rs` read the dials and the
  lamps; `mqtt.rs`, `debug_server.rs` and `capture_store.rs` decide what is published, served and
  kept.
- `tests/` runs the library on concrete values.
- `app/` is the program: it talks to the camera, the broker, the disk and OpenCV, and asks the
  library for every decision.

Lengths and angles are whole numbers of millionths of a pixel or a degree, scores are billionths.
Sums, products and square roots are compared without rounding, by whole numbers of any size
(`wide.rs`, `surd.rs`). Cosines, sines and arc tangents are computed by the program and handed to the library.

What the library takes on trust from other crates stands in `capture.rs`, `preprocess.rs`,
`json.rs` and `mqtt.rs`, in functions whose comments say what is believed of which call.
