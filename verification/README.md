# cvr

Planar RGB image data with verified pixel traversal.

- `src/` (verified with Verus): the `Numeric` channel trait, the `Image` type with its
  mathematical model `ImageView`, `make_iter` (zips three channels into `[r, g, b]` pixels in
  row-major order) and `make_iter_mut` / `make_iter_mut_indexed` (rewrite every pixel in place through a closure
  that sees the pixel, or its position and the pixel), and
  proof functions for the laws that relate them.
- `app/` (plain Rust): the floating point `sRGB` / linear / gray / `HSV` conversions and their
  iterator adapters, which the verifier cannot reason about.
- Channel storage: each channel is a `std::vec::Vec<T>`, which vstd specifies. The channels were
  once `minivec::MiniVec<T>`; that collection is not used, because `Image<T>` is generic and a
  name for what a `MiniVec<T>` holds would need a type parameter, which this crate's rules do not
  allow for such a name. The `Vec` keeps the one-allocation-per-channel layout.
- `tests/`: executable tests of the verified library.
