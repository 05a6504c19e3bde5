pub mod entity;
pub mod game;
pub mod input;
pub mod paths;
pub mod rule;
pub mod scene;
