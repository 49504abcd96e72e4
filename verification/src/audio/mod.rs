pub mod background;
