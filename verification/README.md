# mirkobo

Mirrors a desktop monitor to a Kobo e-reader over a WebSocket link.

- `src/` is the verified library (Verus): the message format both sides
  exchange (`protocol`, on top of `le`), the decisions each side takes on its
  link's events (`session`), the BGRA to RGBA frame conversion (`image`), the
  monitor names and their choice (`monitor`, on top of `text`), the reading of
  the e-reader's framebuffer report and its touch arguments (`device`), and the
  desktop's settings (`args`).
- `app/` is the program around it: argument parsing, screen capture, the image
  pipeline, the network, and the device tools.
- `tests/` runs the library on concrete values, and checks the message bytes
  against `bincode`.
