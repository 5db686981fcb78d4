# dssim-core

The core of an image comparison, with its behaviour stated in contracts and proved by Verus:
a Gaussian blur, the conversion of linear light to L\*a\*b\*, and a pool of buffers.

- `src/` is the verified library. It is generic in its sample type: a contract says which
  operations a result is made of, and in what order. The modules whose names end in `_laws` say
  what follows from those formulas over the real numbers.
- `tests/` run the library on `f32`.
- `app/` puts the library behind `imgref` images of `f32`, converts rows on several threads with
  `rayon`, and shares a pool between threads.

A caller brings the arithmetic along: the sample type has `+` and `*` (for the colour conversion
also `-`, `/` and an order), a function that multiplies and adds with one rounding, and a function
that gives the sample for a fraction.
