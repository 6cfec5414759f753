pub mod apps;
pub mod conway;
pub mod graphics;
pub mod grid;
pub mod noise;
pub mod particles;
pub mod race;
mod random;
pub mod snake;
pub mod tetris;
