pub mod model;
pub mod system;
pub mod load;
pub mod laws;
