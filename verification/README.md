# rustface_jni

The native side of an Android face-detection library, split in two:

- `src/` — the verified library (Verus):
  - `yuv`: NV21 (YUV420SP) camera frames to 8-bit gray, with an exact
    per-pixel contract and laws (monotone in luma, neutral chroma).
  - `gray`: gray images, orientation of camera frames (quarter turns, half
    turn, mirrored front camera) with their algebraic laws, RGBA to gray,
    nearest-neighbour resize and JPEG encoding through the `image` crate.
  - `frame`: preparing a detector's input from an NV21 buffer or an RGBA bitmap.
  - `key`: detector handles — MD5 of the cascade as lower-case hex — and
    their exact round trip.
  - `param`: parameter names and `i32` values read exactly as `str::parse` does.
  - `registry`: the table of loaded detectors and their last frames.
- `app/` — the JNI entry points: Java strings, arrays and bitmaps, the
  process-wide tables, the `rustface` face detector and the pico object
  detector.
- `tests/` — tests of the library.
