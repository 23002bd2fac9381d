# gloom_rs

A small OpenGL viewer of a helicopter flying over a lunar surface, split into a
verified library (`src/`) and the program around it (`app/`).

- `src/sizes.rs`: byte sizes and offsets of packed arrays.
- `src/gl_model.rs`, `src/vao.rs`: the OpenGL calls that set up a mesh's vertex
  array object, and a model of OpenGL's binding state in which the calls are
  proved to leave the vertex array ready to draw, from a fresh context or
  after earlier setups, which they leave untouched.
- `src/scene.rs`: the scene graph and its depth-first walk, proved well nested
  and to end exactly when no cycle is reachable.
- `src/input.rs`, `src/controls.rs`, `src/events.rs`: held keys, camera
  controls, the shared window size and the window-event decisions.
- `app/`: the window, the render thread, the OpenGL calls themselves, shaders,
  mesh loading and the floating-point matrix and animation work.
