//! Runtime core of a small 2D game engine: shapes with intersection tests,
//! per-frame input state, and a scene that drives entities and resolves
//! their collisions.
pub mod geometry;
pub mod input;
pub mod scene;
pub mod window;
pub mod engine;
