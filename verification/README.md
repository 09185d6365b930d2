# fmcw_radar_cube_demo

An FMCW radar demo: a scene of moving objects is synthesised into raw
receiver x chirp x sample data, turned into a radar cube by range, Doppler and
angle FFTs, and searched for peaks, which are mapped back to range, velocity
and angle.

- `src/` is the verified library (Verus): `cube` (an `ndarray::Array3<u64>`
  behind a specified interface), `order_key` (the `u64` keys that order
  `f64` magnitudes), `radar` (peak detection with an exact contract) and
  `spectrum` (centring of FFT bins and of the rows of a map).
- `app/` holds the floating-point radar model and the egui viewers
  (`cube`, `fft`, `range-doppler`, `sampling`), which call the library.
- `tests/` runs the library, including the two-object scene end to end.
