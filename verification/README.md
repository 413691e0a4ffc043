# fractal_explorer

An interactive Mandelbrot / Julia set explorer. The library in `src/` holds
the integer logic of the explorer, verified with Verus; `app/main.rs` is the
program around it (window, drawing, user interface, worker threads, files
and the floating-point escape-time iteration).

Modules of the library:

- `tiles`: cutting a render target into tiles and the centre-out,
  checkerboard order in which tiles are rendered.
- `sort`: the merge sort that orders tiles and snapshot files.
- `palette`: the built-in colour schemes and the palettes built from them.
- `pixels`: palette positions per pixel, for whole renders and for the
  finished tiles of a render in progress; RGBA to RGB conversion.
- `progress`: a render in flight — received iteration counts, finished
  tiles, texture refresh timing.
- `cache`: the list of finished renders kept for redrawing.
- `snapshots`: snapshot file names, their timestamps, listing order and the
  latest snapshot.
- `schedule`: when renders start, are abandoned and finish.
