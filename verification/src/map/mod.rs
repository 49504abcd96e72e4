pub mod path_finding;
pub mod search;
pub mod tiled;
pub mod tilemap;
pub mod tmx;
