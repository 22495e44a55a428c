# ChromaFree

A virtual camera for Windows that replaces the background of a real one.

- `src/` is the library: colour conversion, scaling, orientation, mask
  refinement, blur, compositing, the processing pipeline, the plan of the runs on
  the graphics card, the frame exchange through shared memory, the choice of
  cameras, formats and models, the configuration, and the decisions of the engine
  and of the window. Verus checks all of it.
- `tests/` runs the library on concrete values.
- `app/` is the program: Media Foundation, Direct3D 12, ONNX Runtime, the
  configuration file, the window and the tray icon.

The library holds no floating-point numbers. What is computed in single or double
precision is computed on whole numbers of a small unit, with the same rounding
after every step: strengths and thresholds in units of 2^-60, positions in units of
2^-120. Times are nanoseconds. `app/` converts at its edge.

At run time the program looks for a `models` directory beside the executable, or
in `CHROMAFREE_MODELS_DIR`, and for the compute shaders in a `shaders` directory
beside it.
