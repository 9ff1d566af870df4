pub mod state;
pub mod force;
pub mod game;
pub mod physics;
