# vision_tasks

Real-time vision and audio tasks for a camera host: virtual background, face items and
make-up, hand gestures, focus, noise suppression, and the lowering of networks to GPU
kernels. What decides and computes is in `src/`, verified with Verus; what talks to a
GPU, a clock, a Fourier transform or JSON text is in `app/`.

- `src/ieee`, `src/reals`, `src/trace`, `src/trace64`, `src/ideal`: numbers by their
  bits, the caller's arithmetic, what a number was computed from, and formulas read in
  exact numbers.
- `src/detect`: anchors, decoding, suppression, regions, pixels, kernel parameters.
- `src/features`: `audio`, `face`, `gaze`, `hand` and `vb` (the video background).
- `src/runtime`: kernel lowering and the plan of compiling.
- `src/session`: frame times and the pool of sessions.
- `src/director`: one host's configuration, models, tasks and reports.

Floating-point arithmetic is the caller's: the library takes it through the trait
`Reals`, and its contracts say which operations lead to each result, in which order.
