//! The logic of a small OpenGL scene viewer: the OpenGL calls that set up a
//! mesh's vertex array, the walk of the scene graph that decides what is drawn
//! under which parent, the keyboard and window state shared with the renderer,
//! and the camera controls. The window, the OpenGL calls themselves and all
//! floating-point work stay with the program that uses this library.

pub mod controls;
pub mod events;
pub mod gl_model;
pub mod input;
pub mod scene;
pub mod sizes;
pub mod vao;
