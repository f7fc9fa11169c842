//! Decodes a WAD level archive into a map model, orders its BSP leaves for a
//! viewpoint, and rasterises the map into an RGBA frame.
pub mod data_types;
pub mod wad_data;
pub mod wad_reader;
pub mod bsp;
pub mod player;
pub mod render;
pub mod engine;
