# stylize

Approximates an image by painting random shapes onto a blank canvas and
keeping a shape when a GPU-computed difference score improves.

- `src/` — the verified library (Verus): regions of a raster image
  (`region`), the average colour of a region (`shape`), painting a region
  (`paint`), random rectangles drawn from a seeded generator (`random`), the
  plan of the GPU sum reduction (`reduce`), the scorer's buffer sizes
  (`score`) and the run settings (`config`).
- `app/` — the program around it: command line, image files, the wgpu device,
  the compute pipelines, and the `f32` parts (circles, scores).
- `tests/` — tests of the library.

The compute shaders are read at run time from `assets/shaders/`
(`diff.wgsl`, `reduce.wgsl`).
