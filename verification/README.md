# live2d

Render planning for Live2D models, verified with Verus.

A model snapshot (drawables with their geometry, visibility, opacity, blend modes,
clips, parts and offscreen layers) is turned into a render plan: the packed model
buffers, the clip-mask passes, the mask draws, the main-pass draws and the
command stream that nests draws inside offscreen layers. The library also holds
the GPU-side bookkeeping that does not need a GPU (buffer contents, upload plans,
signatures, uniform slot counts, post-process chains), the probe's stage
statistics, the motion scheduler, the synthetic benchmark models and the helpers
that read model files.

Opacities, positions and other single-precision values travel as their IEEE-754
bit patterns, so that the planning logic is integer logic with exact contracts.

## Layout

- `src/` the verified library
  - `model`, `layout`, `plan`: snapshot types, the mathematical model of a plan
  - `planner`, `commands`, `render`, `world`: building plans, with and without a
    per-model cache
  - `guarantees`: properties of every plan (draw order, masks, packing, dispatch)
  - `dispatch`: the calls a plan makes on a backend
  - `postprocess`, `gpu`, `gpu_post`, `gpu_scene`, `gpu_mask`: GPU-side data
  - `gpu_pass`: the render passes that draw a plan into a target (runs of draws,
    advanced-blend passes, offscreen clears and composites, and where each goes)
  - `probe`, `synthetic`, `compare`: measurement records, synthetic models and the
    rules for comparing benchmark runs
  - `assets`: what a `model3.json` references (moc, textures, motion groups), which
    of those files are missing, and resolving asset paths against a directory
  - `runtime`, `core_model`, `motion`, `text`: model files, core model data,
    motion scheduling and text helpers
- `tests/` tests of the library
- `app/` the benchmark driver: argument handling, file, clock and process access,
  report writing, and the floating-point parts (motion curves, physics, atlas sizing)
