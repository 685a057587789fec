# byard_core

The decision logic of a retained, multi-pipeline UI encoder, written and proved
in Verus.

- `src/` is the library. `frame` holds what a frame is made of, `pattern`, `wide`
  and `lanes` the numbers and bytes it travels as, `encoder` everything decided
  between a published frame and its command buffer, `engine` the window's life
  cycle. Each module states its laws as public proof functions named `law_*`.
- `app/` is ordinary Rust around it: it owns the GPU device, the surface, the
  fonts, the files and the threads, and carries out what the library decides.
- `tests/` runs the library on concrete values.

Geometry is exact: edges are sums and products of the numbers a frame carries,
held without rounding, and rounded outwards once, to whole physical pixels. So no
repainted region is ever too small.
