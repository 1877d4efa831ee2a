//! A granular-material sandbox: every pixel is a cell of real material with a
//! density and a temperature, falling, flowing and piling under its own rules.
//!
//! The simulation itself runs on the GPU. This library holds everything around
//! it that is decided with whole numbers: the material table, the world and how
//! it is built, the uniforms and dispatches of every tick and stroke, time,
//! keys and mouse, the command line, and headless capture.

pub mod args;
pub mod bytes;
pub mod camera;
pub mod clock;
pub mod gpu;
pub mod materials;
pub mod path;
pub mod picture;
pub mod render;
pub mod shot;
pub mod sim;
pub mod single;
pub mod state;
pub mod text;
pub mod world;
