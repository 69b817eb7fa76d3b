# imaging

Backend-agnostic 2D imaging: an owned recording of drawing commands with validation, and the
integer pixel work that raster backends share (premultiplied blending, box blur, masks, blits,
readback of padded rows), written in Verus with contracts proved for every function.

- `src/` is the verified library. Payloads that carry floating-point geometry are type
  parameters of the recorded `Scene`; pixel routines work on bytes and packed words.
- `app/` holds what the library cannot: drawing payloads built on `kurbo` and `peniko`, their
  floating-point checks, conversions to and from `tiny-skia` pixmaps, and environment and clock
  access.
- `tests/` exercises the library on concrete values.
