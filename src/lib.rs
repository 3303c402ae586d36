pub mod buffer;
pub mod colour;
pub mod game;
pub mod packet_builder;
pub mod player;
