# mt_plotters

The verified core of a Mandelbrot plotter that renders in a web worker.

- `src/grid.rs`: the sample grid. An area of `w x h` pixels is walked row by
  row; sample `k` stands for pixel `(k % w, k / w)`. Proved: this is a
  bijection between the samples and the pixels of the area. Also the pixel
  size and origin of the plotting area from its pixel ranges.
- `src/image.rs`: painting escape counts into RGBA bytes. An escaped sample
  takes the palette colour of hue `count + salt`, a bounded one is black,
  every pixel is opaque, uncovered pixels stay white, and sample `k` lands on
  the pixel the grid gives it.
- `src/worker.rs`: the decisions of the worker's reporting loop (five rounds
  of two seconds, then goodbye).
- `app/`: the browser side: canvas and chart set-up, the escape-time
  iteration and the HSL palette (both on `f64`), threads and logging.
