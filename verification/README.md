# nurbs_kernel

A NURBS surface kernel: Cox-de Boor basis functions, analytic rational
surface derivatives, differential geometry, global surface interpolation,
tessellation and VTK export.

- `src/` is the verified library (Verus): the knot-span search, the
  binomial coefficients of the rational derivative formula, the
  tessellation of the parametric grid into triangles, the `key = value`
  configuration reader and the command-line rules.
- `app/` is the program around it: the floating-point geometry (basis
  functions, evaluation, derivatives, curvature, interpolation through
  `nalgebra`), file and process I/O, and VTK output. It calls the library
  for the decisions listed above, with one exception: a knot-span search
  with a NaN parameter or knot runs on the floats in `app/`, since NaN has
  no place among ordered keys and such a search need not stop.
- `tests/` exercises the library.
