# sts_rust

An editor for animation timesheets (X-sheets): a grid of layers by frames whose cells
hold drawing numbers or a "same as above" mark.

- `src/` is the library, written in Verus and verified: the timesheet model, the readers
  and writers of the STS, CSV, SXF (binary and line-based), XDTS and TDTS formats, the
  document with its editing operations and undo history, settings, interface texts and
  the matching of image files to drawing numbers. Contracts state each operation over
  spec models; proof functions state the laws that relate operations: undo restores
  what an edit changed; a saved STS sheet reads back with the same layer and frame counts
  and cell values (numbers kept to 16 bits), its layer names being what Shift-JIS decoding
  gives for their encoding; copied cells paste back as the same block; and so on.
- `app/` is the egui program around the library: windows, file and clipboard access,
  JSON decoding, video frames and the floating-point curve tools.
- `tests/` runs the library on concrete cases.
