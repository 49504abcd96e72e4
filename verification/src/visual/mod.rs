pub mod animations;
pub mod environment;
