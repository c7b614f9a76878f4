//! A fixed-point ray-casting engine over a grid maze: wall marching, face and
//! texture-coordinate resolution, column projection, shading, grid-aware
//! player movement and the framebuffer the views are drawn into.

pub mod caster;
pub mod color;
pub mod face;
pub mod font;
pub mod framebuffer;
pub mod game;
pub mod geometry;
pub mod laws;
pub mod maze;
pub mod overlay;
pub mod player;
pub mod projection;
pub mod render;
pub mod texture;
