# fractal_core

The verified core of an escape-time fractal engine (Mandelbrot, Julia,
Burning Ship, Tricorn, Celtic) with key-frame animation and an autofocus
search for interesting points.

- `src/` is the library, verified with Verus. It holds the logic that does not
  compute with floating point: the render window and its pixel layout, the
  fractal configuration, key frame tracks (sorting, overriding, finding the
  frames around a time), the animation recorder and player, the collection
  that keeps the best focal points, and the focal search configuration with
  its search-radius invariant. Floating-point values are carried as their
  IEEE-754 bit patterns (`Float32`, `Float64`), and the comparisons the
  library makes on them (`total_cmp`, `<`, `<=`, finiteness) are stated and
  proved on those bits.
- `app/` is ordinary Rust around it: complex arithmetic, the escape-time
  iteration and colorization (parallel with rayon, gradients from colorous),
  interpolation of animated values, the random focal search (rand,
  itertools), arrays for NumPy (ndarray), and the Python module `cinefractal`
  (pyo3, numpy).
- `tests/` exercises the library, including checks that the bit-level float
  comparisons agree with Rust's own.
