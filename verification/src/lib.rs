pub mod basis;
pub mod camera;
pub mod cube;
pub mod fixed;
pub mod geometry;
pub mod graphics;
pub mod handler;
mod random;
pub mod scene;
pub mod shader;
pub mod table;
pub mod trig;
pub mod util;
pub mod vec3;
