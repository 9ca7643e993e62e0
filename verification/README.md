# webgl_renderer

The discrete logic of a small WebGL2 rendering engine, written in Verus and
proved against its contracts.

- `src/` is the verified library: checks of GL parameters (accessors,
  samplers, draw modes), attribute buffers and geometries, the
  triangulation of parametric surfaces, keyboard state and key bindings,
  the scene graph (ancestry, cached transforms, breadth-first traversal),
  the uniform plans of lights and shadows, and the pass chain of
  post-processing.
- `app/` is the browser side: the WebGL2 context, DOM listeners, and the
  floating-point math (colors, matrices, cameras, surface sampling). It
  calls the library for every decision.
- `tests/` exercises the library on concrete values.

The one trusted item is the call of `str::to_lowercase`, whose result is
named by the uninterpreted function `primitive::lowercase`.
