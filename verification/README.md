# renderer

The verified core of a small 4d game: hyperspheres placed on a 4d ground,
seen through a GPU ray tracer, with a 2d overlay of text and a compass.

- `src/` is the library, verified with Verus. It keeps the bookkeeping and
  the decisions: the dense id/slot storage behind the object buffer
  (`storage`), the scene rules (`game`), the ray-tracing pass plan
  (`ray_tracing`), the batching of overlay draws into layers (`ui`), the
  reader of bitmap-font descriptions (`font`), image decoding (`texture`),
  input tracking and frame-loop decisions (`app`) and the camera key
  bindings (`camera`). Each operation returns the device work it needs
  (offsets, moves, buffer sizes, draw ranges).
- `app/` is the program around it: the window, the GPU pipelines and
  shaders, floating-point camera and text layout. It carries out the plans
  the library returns.
- `tests/` exercise the library on concrete values.

The program reads its font from `fonts/space_mono.fnt` and the page images
`fonts/space_mono_0.png` and `fonts/space_mono_1.png` at start-up.
