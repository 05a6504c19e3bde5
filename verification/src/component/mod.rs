pub mod animation;
pub mod spatial;
