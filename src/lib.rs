pub mod assets;
pub mod commands;
pub mod geometry;
pub mod laws;
pub mod lights;
pub mod material;
pub mod pool;
pub mod renderer;
pub mod sprite;
pub mod text;
pub mod values;
