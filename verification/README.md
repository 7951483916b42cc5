# aec_render

Rendering for architecture: presets and their queue, saved cameras, lighting and
photometric profiles, materials and their checks, a path tracer on the processor and the
tables and the program of one on the graphics adapter, denoising, and comparing pictures.

- `src/` is the library. Every function in it has a contract, and Verus proves it.
- `tests/` runs the library on concrete values.
- `app/` is what surrounds the library: floating point, files, the job database, the
  graphics adapter, and JSON.

Verus does not reason about floating point here. A single-precision number is a `Single`,
which is its bits: the library compares such numbers, and takes their least and greatest,
by their bits. Sums, products and the rest come in as functions of the caller, such as
those in `app/`, and a contract says which of them is applied to what, in which order.
Such a function must give the same result for the same arguments, and the library's
functions ask no more of it to run. Some promises rest on more, and say so: that a walk
through the tree finds the closest hit asks that the tests of boxes and triangles agree
(`intersect::faithful`), and laws on likeness ask of the arithmetic what they use of it.
